use file_exchange::addr::host_part;
use file_exchange::asset::AssetCategory;
use file_exchange::asset::asset_path;
use file_exchange::asset::category_content_type;
use file_exchange::asset::category_dir;
use file_exchange::asset::fetch_asset;
use file_exchange::asset::fetch_outcome;
use file_exchange::errors::UploadError;
use file_exchange::filename::validate_filename;
use file_exchange::paths::stored_path;
use file_exchange::paths::upload_dir;
use file_exchange::store::FileStore;
use file_exchange::upload::run_field;

#[test]
fn round_trip_upload_then_fetch() {
    // Uploading a.bin with content X then fetching it as an image returns
    // exactly X with the image/jpeg content type.
    let mut store = FileStore::new();
    let content = b"X".to_vec();
    let r = run_field(&mut store, Some("a.bin"), &vec![content.clone()]);
    assert_eq!(r.unwrap(), "a.bin".to_string());
    let resp = fetch_asset(&store, AssetCategory::Image, "a.bin").unwrap();
    assert_eq!(resp.body, content);
    assert_eq!(resp.content_type, "image/jpeg");
}

#[test]
fn fetch_of_missing_file_is_not_found() {
    let store = FileStore::new();
    let r = fetch_asset(&store, AssetCategory::Image, "absent.jpg");
    assert_eq!(r.unwrap_err(), UploadError::NotFound);
    let r = fetch_asset(&store, AssetCategory::Video, "absent.mp4");
    assert_eq!(r.unwrap_err(), UploadError::NotFound);
}

#[test]
fn fetch_outcome_maps_absence_to_not_found() {
    assert_eq!(fetch_outcome(None).unwrap_err(), UploadError::NotFound);
    assert_eq!(fetch_outcome(Some(b"data".to_vec())).unwrap(), b"data".to_vec());
}

#[test]
fn create_truncates_an_existing_file() {
    let mut store = FileStore::new();
    store.create("f.bin");
    store.append("f.bin", b"old bytes");
    store.create("f.bin");
    assert_eq!(store.read("f.bin").unwrap(), Vec::<u8>::new());
}

#[test]
fn same_name_last_writer_wins() {
    let mut store = FileStore::new();
    let first = run_field(&mut store, Some("clash.txt"), &vec![b"first".to_vec()]);
    assert!(first.is_ok());
    let second = run_field(&mut store, Some("clash.txt"), &vec![b"second".to_vec()]);
    assert!(second.is_ok());
    assert_eq!(store.read("clash.txt").unwrap(), b"second".to_vec());
}

#[test]
fn read_of_absent_name_is_none() {
    let mut store = FileStore::new();
    store.create("present");
    assert!(store.read("absent").is_none());
    assert!(store.contains("present"));
    assert!(!store.contains("absent"));
}

#[test]
fn filename_validation_cases() {
    assert!(validate_filename("report.txt"));
    assert!(validate_filename("Ünïcode név.bin"));
    assert!(validate_filename("...three-dots"));
    assert!(!validate_filename(""));
    assert!(!validate_filename("."));
    assert!(!validate_filename(".."));
    assert!(!validate_filename("dir/file"));
    assert!(!validate_filename("dir\\file"));
    assert!(!validate_filename("/rooted"));
}

#[test]
fn paths_are_joined_under_their_directories() {
    assert_eq!(upload_dir(), "./tmp");
    assert_eq!(stored_path(upload_dir(), "report.txt"), "./tmp/report.txt".to_string());
    assert_eq!(category_dir(AssetCategory::Image), "./tmp");
    assert_eq!(category_dir(AssetCategory::Video), "./video");
    assert_eq!(asset_path(AssetCategory::Image, "a.jpg"), "./tmp/a.jpg".to_string());
    assert_eq!(asset_path(AssetCategory::Video, "a.mp4"), "./video/a.mp4".to_string());
}

#[test]
fn content_types_are_fixed_per_category() {
    assert_eq!(category_content_type(AssetCategory::Image), "image/jpeg");
    assert_eq!(category_content_type(AssetCategory::Video), "video/mpeg4");
}

#[test]
fn host_part_splits_at_the_first_colon() {
    assert_eq!(host_part("192.168.0.7:8000"), "192.168.0.7".to_string());
    assert_eq!(host_part("localhost"), "localhost".to_string());
    assert_eq!(host_part(":9"), "".to_string());
}
