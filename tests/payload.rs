use image_bridge::payload::{decode_payload, encode_payload, PayloadError, PAYLOAD_TAG};

#[test]
fn decodes_tagged_payload() {
    let r = decode_payload("data:image/png;base64,aGVsbG8=");
    assert_eq!(r.unwrap(), b"hello".to_vec());
}

#[test]
fn decodes_empty_body_to_no_bytes() {
    let r = decode_payload("data:image/png;base64,");
    assert_eq!(r.unwrap(), Vec::<u8>::new());
}

#[test]
fn rejects_other_media_type_even_with_valid_base64() {
    let r = decode_payload("data:image/jpeg;base64,aGVsbG8=");
    assert!(matches!(r, Err(PayloadError::Format)));
}

#[test]
fn rejects_missing_tag() {
    assert!(matches!(decode_payload("aGVsbG8="), Err(PayloadError::Format)));
    assert!(matches!(decode_payload(""), Err(PayloadError::Format)));
    assert!(matches!(decode_payload("DATA:image/png;base64,aGVsbG8="), Err(PayloadError::Format)));
}

#[test]
fn malformed_base64_is_decode_error() {
    let r = decode_payload("data:image/png;base64,@@@@");
    assert!(matches!(r, Err(PayloadError::Decode(_))));
    let r = decode_payload("data:image/png;base64,aGVsbG8");
    assert!(matches!(r, Err(PayloadError::Decode(_))));
}

#[test]
fn encodes_with_tag_and_base64() {
    assert_eq!(encode_payload(b"hello"), "data:image/png;base64,aGVsbG8=");
    assert_eq!(encode_payload(&[]), PAYLOAD_TAG);
}

#[test]
fn round_trip_of_various_bytes() {
    let samples: Vec<Vec<u8>> = vec![
        vec![],
        vec![0],
        vec![255, 254],
        vec![1, 2, 3],
        (0..=255u8).collect(),
    ];
    for b in samples {
        let p = encode_payload(&b);
        assert_eq!(decode_payload(&p).unwrap(), b);
    }
}
