use file_exchange::errors::UploadError;
use file_exchange::store::FileStore;
use file_exchange::upload::FieldData;
use file_exchange::upload::UploadPhase;
use file_exchange::upload::Uploader;
use file_exchange::upload::run_field;
use file_exchange::upload::run_upload;

fn field(name: Option<&str>, chunks: Vec<Vec<u8>>) -> FieldData {
    FieldData { filename: name.map(|n| n.to_string()), chunks }
}

#[test]
fn chunk_partitions_concatenate() {
    // The same byte sequence, split into different chunk partitions, always
    // stores the same file.
    let bytes = b"the quick brown fox".to_vec();
    let partitions: Vec<Vec<Vec<u8>>> = vec![
        vec![bytes.clone()],
        vec![bytes[..1].to_vec(), bytes[1..].to_vec()],
        vec![bytes[..5].to_vec(), bytes[5..9].to_vec(), bytes[9..].to_vec()],
        bytes.iter().map(|b| vec![*b]).collect(),
    ];
    for chunks in partitions {
        let mut store = FileStore::new();
        let r = run_field(&mut store, Some("data.bin"), &chunks);
        assert_eq!(r.unwrap(), "data.bin".to_string());
        assert_eq!(store.read("data.bin").unwrap(), bytes);
    }
}

#[test]
fn empty_filename_is_malformed_and_writes_nothing() {
    let mut store = FileStore::new();
    let chunks = vec![b"payload".to_vec()];
    let r = run_field(&mut store, Some(""), &chunks);
    assert_eq!(r.unwrap_err(), UploadError::MalformedUpload);
    assert!(!store.contains(""));
    assert!(store.read("").is_none());
}

#[test]
fn missing_filename_is_malformed_and_writes_nothing() {
    let mut store = FileStore::new();
    let chunks = vec![b"payload".to_vec()];
    let r = run_field(&mut store, None, &chunks);
    assert_eq!(r.unwrap_err(), UploadError::MalformedUpload);
    assert!(store.read("payload").is_none());
}

#[test]
fn traversal_filenames_are_rejected() {
    for bad in ["..", ".", "a/b", "a\\b", "../etc/passwd"] {
        let mut store = FileStore::new();
        let r = run_field(&mut store, Some(bad), &vec![b"x".to_vec()]);
        assert_eq!(r.unwrap_err(), UploadError::MalformedUpload);
        assert!(!store.contains(bad));
    }
}

#[test]
fn interleaved_writes_do_not_mix_files() {
    // Chunk writes to two distinct filenames, interleaved as two concurrent
    // uploads would produce them, never leak bytes across the files.
    let mut store = FileStore::new();
    store.create("left.bin");
    store.create("right.bin");
    store.append("left.bin", b"AA");
    store.append("right.bin", b"11");
    store.append("left.bin", b"BB");
    store.append("right.bin", b"22");
    store.append("left.bin", b"CC");
    assert_eq!(store.read("left.bin").unwrap(), b"AABBCC".to_vec());
    assert_eq!(store.read("right.bin").unwrap(), b"1122".to_vec());
}

#[test]
fn upload_scenario_reports_stored_filename() {
    // One field named with filename "report.txt" and body "hello world".
    let mut store = FileStore::new();
    let fields = vec![field(Some("report.txt"), vec![b"hello world".to_vec()])];
    let response = run_upload(&mut store, &fields);
    assert_eq!(response, "report.txt Uploaded successful.".to_string());
    assert_eq!(store.read("report.txt").unwrap(), b"hello world".to_vec());
}

#[test]
fn upload_scenario_without_filename_fails() {
    // A field lacking a filename: failure response, no file written.
    let mut store = FileStore::new();
    let fields = vec![field(None, vec![b"hello world".to_vec()])];
    let response = run_upload(&mut store, &fields);
    assert_eq!(response, "File upload failed.".to_string());
    assert!(store.read("hello world").is_none());
    assert!(!store.contains("hello world"));
}

#[test]
fn empty_body_fails() {
    let mut store = FileStore::new();
    let response = run_upload(&mut store, &Vec::new());
    assert_eq!(response, "File upload failed.".to_string());
}

#[test]
fn later_field_wins_the_report() {
    let mut store = FileStore::new();
    let fields = vec![
        field(Some("first.txt"), vec![b"one".to_vec()]),
        field(Some("second.txt"), vec![b"two".to_vec()]),
    ];
    let response = run_upload(&mut store, &fields);
    assert_eq!(response, "second.txt Uploaded successful.".to_string());
    assert_eq!(store.read("first.txt").unwrap(), b"one".to_vec());
    assert_eq!(store.read("second.txt").unwrap(), b"two".to_vec());
}

#[test]
fn malformed_field_aborts_the_rest_of_the_body() {
    let mut store = FileStore::new();
    let fields = vec![
        field(Some("kept.txt"), vec![b"kept".to_vec()]),
        field(None, vec![b"dropped".to_vec()]),
        field(Some("never.txt"), vec![b"never".to_vec()]),
    ];
    let response = run_upload(&mut store, &fields);
    assert_eq!(response, "File upload failed.".to_string());
    assert_eq!(store.read("kept.txt").unwrap(), b"kept".to_vec());
    assert!(store.read("never.txt").is_none());
}

#[test]
fn uploader_happy_path() {
    let mut up = Uploader::new();
    assert_eq!(up.phase, UploadPhase::AwaitingField);
    let path = up.start_field(Some("photo.jpg".to_string())).unwrap();
    assert_eq!(path, "./tmp/photo.jpg".to_string());
    assert_eq!(up.phase, UploadPhase::ReadingChunks);
    up.end_field();
    assert_eq!(up.phase, UploadPhase::AwaitingField);
    up.finish_body();
    assert_eq!(up.phase, UploadPhase::BodyComplete);
    assert_eq!(up.response_body(), "photo.jpg Uploaded successful.".to_string());
}

#[test]
fn uploader_missing_filename_errors() {
    let mut up = Uploader::new();
    let r = up.start_field(None);
    assert_eq!(r.unwrap_err(), UploadError::MalformedUpload);
    assert_eq!(up.phase, UploadPhase::Errored);
    assert_eq!(up.error, Some(UploadError::MalformedUpload));
    assert_eq!(up.response_body(), "File upload failed.".to_string());
}

#[test]
fn uploader_write_failure_errors() {
    let mut up = Uploader::new();
    up.start_field(Some("big.mp4".to_string())).unwrap();
    up.io_failed(UploadError::WriteFailed);
    assert_eq!(up.phase, UploadPhase::Errored);
    assert_eq!(up.error, Some(UploadError::WriteFailed));
    assert_eq!(up.response_body(), "File upload failed.".to_string());
}

#[test]
fn uploader_offload_failure_errors() {
    let mut up = Uploader::new();
    up.start_field(Some("slow.bin".to_string())).unwrap();
    up.io_failed(UploadError::OffloadFailed);
    assert_eq!(up.error, Some(UploadError::OffloadFailed));
    assert_eq!(up.response_body(), "File upload failed.".to_string());
}

#[test]
fn uploader_create_failure_errors() {
    let mut up = Uploader::new();
    up.start_field(Some("a.bin".to_string())).unwrap();
    up.io_failed(UploadError::CreateFailed);
    assert_eq!(up.error, Some(UploadError::CreateFailed));
    assert_eq!(up.response_body(), "File upload failed.".to_string());
}
