use filehost::file_methods::{
    delete_file, download, files, rename, upload, FileService, FileUpload, FsError, RenameRequest,
    UploadResult,
};

fn payload(n: usize) -> Vec<u8> {
    let mut v = Vec::new();
    for i in 0..n {
        v.push((i % 251) as u8);
    }
    v
}

#[test]
fn upload_then_list_shows_exactly_one_entry() {
    let mut service = FileService::new();
    let data = payload(1234);
    let r = upload(&mut service, FileUpload { name: "a.txt".to_string(), data });
    assert_eq!(r, UploadResult::Stored);
    let listing = files(&service);
    assert_eq!(listing.len(), 1);
    assert_eq!(listing[0].name, "a.txt");
    assert_eq!(listing[0].size, 1234);
}

#[test]
fn uploading_same_name_twice_overwrites() {
    let mut service = FileService::new();
    assert_eq!(
        upload(&mut service, FileUpload { name: "a.txt".to_string(), data: payload(10) }),
        UploadResult::Stored
    );
    assert_eq!(
        upload(&mut service, FileUpload { name: "a.txt".to_string(), data: payload(99) }),
        UploadResult::Stored
    );
    let listing = files(&service);
    assert_eq!(listing.len(), 1);
    assert_eq!(listing[0].name, "a.txt");
    assert_eq!(listing[0].size, 99);
    assert_eq!(download(&service, "a.txt").unwrap(), payload(99));
}

#[test]
fn download_returns_stored_bytes() {
    let mut service = FileService::new();
    let data = payload(77);
    upload(&mut service, FileUpload { name: "a.txt".to_string(), data: data.clone() });
    assert_eq!(download(&service, "a.txt").unwrap(), data);
    assert!(download(&service, "b.txt").is_none());
}

#[test]
fn delete_removes_from_list_and_download() {
    let mut service = FileService::new();
    upload(&mut service, FileUpload { name: "a.txt".to_string(), data: payload(5) });
    upload(&mut service, FileUpload { name: "keep.txt".to_string(), data: payload(6) });
    assert_eq!(delete_file(&mut service, "a.txt"), Ok(()));
    let listing = files(&service);
    assert_eq!(listing.len(), 1);
    assert_eq!(listing[0].name, "keep.txt");
    assert!(download(&service, "a.txt").is_none());
    assert_eq!(download(&service, "keep.txt").unwrap(), payload(6));
}

#[test]
fn delete_of_missing_file_reports_not_found() {
    let mut service = FileService::new();
    assert_eq!(delete_file(&mut service, "a.txt"), Err(FsError::NotFound));
}

#[test]
fn rename_moves_name_and_content() {
    let mut service = FileService::new();
    let data = payload(42);
    upload(&mut service, FileUpload { name: "a.txt".to_string(), data: data.clone() });
    let request = RenameRequest { new_name: "b.txt".to_string() };
    assert_eq!(rename(&mut service, "a.txt", &request), Ok(()));
    let listing = files(&service);
    assert_eq!(listing.len(), 1);
    assert_eq!(listing[0].name, "b.txt");
    assert_eq!(download(&service, "b.txt").unwrap(), data);
    assert!(download(&service, "a.txt").is_none());
}

#[test]
fn rename_replaces_existing_target() {
    let mut service = FileService::new();
    upload(&mut service, FileUpload { name: "a.txt".to_string(), data: payload(1) });
    upload(&mut service, FileUpload { name: "b.txt".to_string(), data: payload(2) });
    let request = RenameRequest { new_name: "b.txt".to_string() };
    assert_eq!(rename(&mut service, "a.txt", &request), Ok(()));
    let listing = files(&service);
    assert_eq!(listing.len(), 1);
    assert_eq!(listing[0].name, "b.txt");
    assert_eq!(download(&service, "b.txt").unwrap(), payload(1));
}

#[test]
fn rename_to_same_name_changes_nothing() {
    let mut service = FileService::new();
    upload(&mut service, FileUpload { name: "a.txt".to_string(), data: payload(3) });
    let request = RenameRequest { new_name: "a.txt".to_string() };
    assert_eq!(rename(&mut service, "a.txt", &request), Ok(()));
    let listing = files(&service);
    assert_eq!(listing.len(), 1);
    assert_eq!(listing[0].name, "a.txt");
    assert_eq!(download(&service, "a.txt").unwrap(), payload(3));
}

#[test]
fn rename_of_missing_file_reports_not_found() {
    let mut service = FileService::new();
    let request = RenameRequest { new_name: "b.txt".to_string() };
    assert_eq!(rename(&mut service, "a.txt", &request), Err(FsError::NotFound));
}

#[test]
fn empty_store_lists_nothing() {
    let service = FileService::new();
    assert_eq!(files(&service).len(), 0);
}

#[test]
fn empty_payload_is_stored_with_size_zero() {
    let mut service = FileService::new();
    assert_eq!(
        upload(&mut service, FileUpload { name: "a.txt".to_string(), data: Vec::new() }),
        UploadResult::Stored
    );
    let listing = files(&service);
    assert_eq!(listing.len(), 1);
    assert_eq!(listing[0].size, 0);
    assert_eq!(download(&service, "a.txt").unwrap(), Vec::<u8>::new());
}
