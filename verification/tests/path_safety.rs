use filehost::file_methods::{
    delete_file, download, files, rename, upload, FileService, FileUpload, FsError, RenameRequest,
    UploadResult,
};
use filehost::paths::{is_safe_path, resolve_path};

#[test]
fn traversal_paths_are_rejected() {
    assert!(!is_safe_path("../secret"));
    assert!(!is_safe_path(".."));
    assert!(!is_safe_path("a/../b"));
    assert!(!is_safe_path("a/.."));
    assert!(!is_safe_path("../../etc/passwd"));
}

#[test]
fn absolute_and_malformed_paths_are_rejected() {
    assert!(!is_safe_path(""));
    assert!(!is_safe_path("/etc/passwd"));
    assert!(!is_safe_path("a//b"));
    assert!(!is_safe_path("a/"));
    assert!(!is_safe_path("."));
    assert!(!is_safe_path("./a"));
    assert!(!is_safe_path("a/./b"));
    assert!(!is_safe_path("a\\b"));
    assert!(!is_safe_path("a\u{0}b"));
}

#[test]
fn ordinary_names_are_accepted() {
    assert!(is_safe_path("a.txt"));
    assert!(is_safe_path("dir/file.txt"));
    assert!(is_safe_path(".hidden"));
    assert!(is_safe_path("..."));
    assert!(is_safe_path("a..b"));
    assert!(is_safe_path("notes 2024.md"));
}

#[test]
fn resolve_path_joins_under_root_or_refuses() {
    assert_eq!(resolve_path("./files", "a.txt").unwrap(), "./files/a.txt");
    assert_eq!(resolve_path("./files", "dir/b.txt").unwrap(), "./files/dir/b.txt");
    assert!(resolve_path("./files", "../secret").is_none());
    assert!(resolve_path("./files", "/etc/passwd").is_none());
}

#[test]
fn operations_refuse_traversal_without_side_effect() {
    let mut service = FileService::new();
    upload(&mut service, FileUpload { name: "a.txt".to_string(), data: vec![1, 2, 3] });

    assert_eq!(
        upload(&mut service, FileUpload { name: "../evil".to_string(), data: vec![9] }),
        UploadResult::Rejected
    );
    assert!(download(&service, "../a.txt").is_none());
    assert_eq!(delete_file(&mut service, "../secret"), Err(FsError::Rejected));
    let escape = RenameRequest { new_name: "../escape".to_string() };
    assert_eq!(rename(&mut service, "a.txt", &escape), Err(FsError::Rejected));
    let from_outside = RenameRequest { new_name: "b.txt".to_string() };
    assert_eq!(rename(&mut service, "../a.txt", &from_outside), Err(FsError::Rejected));

    let listing = files(&service);
    assert_eq!(listing.len(), 1);
    assert_eq!(listing[0].name, "a.txt");
    assert_eq!(download(&service, "a.txt").unwrap(), vec![1, 2, 3]);
}
