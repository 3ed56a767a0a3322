use std::collections::HashMap;

use image_bridge::batch::{BatchAction, BatchWriter, EncodedFile, ExportError, ExportSummary};

fn entry(name: &str, payload: &str) -> EncodedFile {
    EncodedFile { filename: name.to_string(), payload: payload.to_string() }
}

/// Runs a batch against an in-memory directory; `fail_on` names a file whose
/// write fails.
fn run(
    files: &mut HashMap<String, Vec<u8>>,
    exists: bool,
    entries: Vec<EncodedFile>,
    fail_on: Option<&str>,
) -> Result<ExportSummary, ExportError> {
    let mut w = BatchWriter::new(entries, "/out".to_string());
    let mut a = w.begin(exists);
    loop {
        match a {
            BatchAction::Write(f) => {
                if fail_on == Some(f.filename.as_str()) {
                    a = w.record_write(Err("disk full".to_string()));
                } else {
                    files.insert(f.filename, f.bytes);
                    a = w.record_write(Ok(()));
                }
            }
            BatchAction::Finish(r) => return r,
        }
    }
}

#[test]
fn missing_directory_writes_nothing() {
    let mut files = HashMap::new();
    let r = run(&mut files, false, vec![entry("a.png", "data:image/png;base64,aGVsbG8=")], None);
    assert!(matches!(r, Err(ExportError::DirectoryNotFound)));
    assert!(files.is_empty());
}

#[test]
fn missing_directory_checked_before_payloads() {
    let mut files = HashMap::new();
    let r = run(&mut files, false, vec![entry("a.png", "not a payload")], None);
    assert!(matches!(r, Err(ExportError::DirectoryNotFound)));
}

#[test]
fn writes_all_entries_in_order() {
    let mut files = HashMap::new();
    let r = run(
        &mut files,
        true,
        vec![entry("a.png", "data:image/png;base64,aGVsbG8="), entry("b.png", "data:image/png;base64,AAEC")],
        None,
    )
    .unwrap();
    assert_eq!(r.count, 2);
    assert_eq!(r.directory, "/out");
    assert_eq!(files["a.png"], b"hello".to_vec());
    assert_eq!(files["b.png"], vec![0, 1, 2]);
}

#[test]
fn empty_batch_succeeds_with_zero() {
    let mut files = HashMap::new();
    let r = run(&mut files, true, vec![], None).unwrap();
    assert_eq!(r.count, 0);
    assert!(files.is_empty());
}

#[test]
fn stops_at_bad_payload_keeping_earlier_files() {
    let mut files = HashMap::new();
    let r = run(
        &mut files,
        true,
        vec![
            entry("a.png", "data:image/png;base64,aGVsbG8="),
            entry("b.png", "data:image/gif;base64,aGVsbG8="),
            entry("c.png", "data:image/png;base64,AAEC"),
        ],
        None,
    );
    assert!(matches!(r, Err(ExportError::Format)));
    assert_eq!(files["a.png"], b"hello".to_vec());
    assert!(!files.contains_key("b.png"));
    assert!(!files.contains_key("c.png"));
}

#[test]
fn stops_at_malformed_base64() {
    let mut files = HashMap::new();
    let r = run(
        &mut files,
        true,
        vec![entry("a.png", "data:image/png;base64,aGVsbG8="), entry("b.png", "data:image/png;base64,!!")],
        None,
    );
    assert!(matches!(r, Err(ExportError::Decode(_))));
    assert_eq!(files.len(), 1);
}

#[test]
fn write_failure_names_the_file() {
    let mut files = HashMap::new();
    let r = run(
        &mut files,
        true,
        vec![
            entry("a.png", "data:image/png;base64,aGVsbG8="),
            entry("b.png", "data:image/png;base64,AAEC"),
            entry("c.png", "data:image/png;base64,AAEC"),
        ],
        Some("b.png"),
    );
    match r {
        Err(ExportError::Write { filename, cause }) => {
            assert_eq!(filename, "b.png");
            assert_eq!(cause, "disk full");
        }
        _ => panic!("expected a write error"),
    }
    assert!(files.contains_key("a.png"));
    assert!(!files.contains_key("c.png"));
}

#[test]
fn second_run_overwrites_with_same_contents() {
    let entries = || {
        vec![
            entry("a.png", "data:image/png;base64,aGVsbG8="),
            entry("a.png", "data:image/png;base64,AAEC"),
            entry("b.png", "data:image/png;base64,AAEC"),
        ]
    };
    let mut files = HashMap::new();
    files.insert("b.png".to_string(), vec![9, 9]);
    let first = run(&mut files, true, entries(), None).unwrap();
    let after_first = files.clone();
    let second = run(&mut files, true, entries(), None).unwrap();
    assert_eq!(first.count, 3);
    assert_eq!(second.count, 3);
    assert_eq!(files, after_first);
    assert_eq!(files["a.png"], vec![0, 1, 2]);
    assert_eq!(files["b.png"], vec![0, 1, 2]);
}
