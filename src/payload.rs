//! Tagged base64 payloads: `data:image/png;base64,` followed by standard base64.

use vstd::prelude::*;
use vstd::string::StringExecFns;
use vstd::utf8::encode_utf8;

verus! {

/// The literal that every exported payload starts with.
pub const PAYLOAD_TAG: &'static str = "data:image/png;base64,";

/// Bytes that the standard base64 engine decodes `text` to, or `None` when
/// `text` is not canonical padded standard base64.
pub uninterp spec fn base64_decoded(text: Seq<u8>) -> Option<Seq<u8>>;

/// Text that the standard base64 engine encodes `bytes` to.
pub uninterp spec fn base64_encoded(bytes: Seq<u8>) -> Seq<char>;

/// Declares base64's decoding error, carried as the reason of a failed decode.
#[verifier::external_type_specification]
#[verifier::external_body]
pub struct ExDecodeError(base64::DecodeError);

/// Relies on `base64::Engine::decode` with `general_purpose::STANDARD`
/// (standard alphabet, canonical padding): it returns the decoded bytes or a
/// `DecodeError`, depending on the input alone, and never panics.
#[verifier::external_body]
fn decode_base64(text: &[u8]) -> (r: Result<Vec<u8>, base64::DecodeError>)
    ensures
        match r {
            Ok(v) => base64_decoded(text@) == Some(v@),
            Err(_) => base64_decoded(text@) is None,
        },
{
    base64::Engine::decode(&base64::engine::general_purpose::STANDARD, text)
}

/// Relies on `base64::Engine::encode` with `general_purpose::STANDARD`: the
/// text depends on the input alone, and decoding it with the same engine gives
/// the input back. It panics only when the output length overflows `usize`.
#[verifier::external_body]
fn encode_base64(bytes: &[u8]) -> (r: String)
    requires
        bytes@.len() <= usize::MAX / 2,
    ensures
        r@ == base64_encoded(bytes@),
        base64_decoded(encode_utf8(r@)) == Some(bytes@),
{
    base64::Engine::encode(&base64::engine::general_purpose::STANDARD, bytes)
}

/// Why a payload could not be decoded.
#[derive(Debug)]
pub enum PayloadError {
    /// The payload does not start with [`PAYLOAD_TAG`].
    Format,
    /// The text after the tag is not valid standard base64.
    Decode(base64::DecodeError),
}

/// What decoding a payload comes to, with the base64 error reason left out.
pub enum PayloadDecoding {
    Bytes(Seq<u8>),
    MissingTag,
    Malformed,
}

/// The UTF-8 bytes of the tag.
pub open spec fn payload_tag() -> Seq<u8> {
    encode_utf8(PAYLOAD_TAG@)
}

pub open spec fn has_payload_tag(p: Seq<u8>) -> bool {
    payload_tag().len() <= p.len() && p.subrange(0, payload_tag().len() as int) == payload_tag()
}

/// The part of a tagged payload after the tag.
pub open spec fn payload_body(p: Seq<u8>) -> Seq<u8> {
    p.subrange(payload_tag().len() as int, p.len() as int)
}

/// Decoding of the payload whose UTF-8 bytes are `p`.
pub open spec fn payload_decoding(p: Seq<u8>) -> PayloadDecoding {
    if !has_payload_tag(p) {
        PayloadDecoding::MissingTag
    } else {
        match base64_decoded(payload_body(p)) {
            Some(b) => PayloadDecoding::Bytes(b),
            None => PayloadDecoding::Malformed,
        }
    }
}

pub open spec fn decoding_of(r: Result<Vec<u8>, PayloadError>) -> PayloadDecoding {
    match r {
        Ok(v) => PayloadDecoding::Bytes(v@),
        Err(PayloadError::Format) => PayloadDecoding::MissingTag,
        Err(PayloadError::Decode(_)) => PayloadDecoding::Malformed,
    }
}

fn starts_with_bytes(s: &[u8], prefix: &[u8]) -> (r: bool)
    ensures
        r == (prefix@.len() <= s@.len() && s@.subrange(0, prefix@.len() as int) == prefix@),
{
    if prefix.len() > s.len() {
        return false;
    }
    let mut i: usize = 0;
    while i < prefix.len()
        invariant
            prefix@.len() <= s@.len(),
            i <= prefix@.len(),
            forall|j: int| 0 <= j < i ==> s@[j] == prefix@[j],
        decreases prefix@.len() - i,
    {
        if s[i] != prefix[i] {
            assert(s@.subrange(0, prefix@.len() as int)[i as int] != prefix@[i as int]);
            return false;
        }
        i = i + 1;
    }
    assert(s@.subrange(0, prefix@.len() as int) =~= prefix@);
    true
}

/// Decodes a tagged payload into raw bytes. A payload without the exact tag
/// fails with `Format`, whatever follows; malformed base64 after the tag
/// fails with `Decode`.
pub fn decode_payload(payload: &str) -> (r: Result<Vec<u8>, PayloadError>)
    ensures
        decoding_of(r) == payload_decoding(encode_utf8(payload@)),
        !has_payload_tag(encode_utf8(payload@)) ==> r matches Err(PayloadError::Format),
{
    let bytes = payload.as_bytes();
    let tag = PAYLOAD_TAG.as_bytes();
    if !starts_with_bytes(bytes, tag) {
        return Err(PayloadError::Format);
    }
    let (_, body) = bytes.split_at(tag.len());
    match decode_base64(body) {
        Ok(v) => Ok(v),
        Err(e) => Err(PayloadError::Decode(e)),
    }
}

proof fn lemma_encode_utf8_concat(a: Seq<char>, b: Seq<char>)
    ensures
        encode_utf8(a + b) == encode_utf8(a) + encode_utf8(b),
    decreases a.len(),
{
    if a.len() == 0 {
        assert(a + b =~= b);
        assert(encode_utf8(a) + encode_utf8(b) =~= encode_utf8(b));
    } else {
        assert((a + b).drop_first() =~= a.drop_first() + b);
        assert((a + b)[0] == a[0]);
        lemma_encode_utf8_concat(a.drop_first(), b);
        assert(encode_utf8(a + b) =~= encode_utf8(a) + encode_utf8(b));
    }
}

/// Builds the tagged payload for `bytes`: the tag followed by their standard
/// base64 text. Decoding the result gives `bytes` back.
pub fn encode_payload(bytes: &[u8]) -> (r: String)
    requires
        bytes@.len() <= usize::MAX / 2,
    ensures
        r@ == PAYLOAD_TAG@ + base64_encoded(bytes@),
        payload_decoding(encode_utf8(r@)) == PayloadDecoding::Bytes(bytes@),
{
    let text = encode_base64(bytes);
    let mut r = PAYLOAD_TAG.to_owned();
    r.append(text.as_str());
    proof {
        let tag = payload_tag();
        let body = encode_utf8(text@);
        lemma_encode_utf8_concat(PAYLOAD_TAG@, text@);
        let all = encode_utf8(r@);
        assert(all == tag + body);
        assert(all.subrange(0, tag.len() as int) =~= tag);
        assert(payload_body(all) =~= body);
    }
    r
}

} // verus!
