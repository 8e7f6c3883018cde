use odyssey::api_objects::{FileMetadata, FileType, PrintUploadDirectory};
use odyssey::error::{ErrorType, IoKind, OdysseyError};
use odyssey::printfile::{
    favorite_from_xattr, print_count_from_xattr, rating_from_xattr, user_metadata_from_xattrs,
};
use odyssey::text::trim_bytes;
use odyssey::uploads::{classify_entries, join_paths, paginate};

fn upload_dir() -> PrintUploadDirectory {
    PrintUploadDirectory { label: b"local".to_vec(), path: b"/var/prints".to_vec() }
}

#[test]
fn file_type_from_extension_matches_sl1_case_insensitively() {
    assert!(matches!(FileType::from_extension(Some(b"sl1")), FileType::SL1));
    assert!(matches!(FileType::from_extension(Some(b"SL1")), FileType::SL1));
    assert!(matches!(FileType::from_extension(Some(b"Sl1")), FileType::SL1));
    assert!(matches!(FileType::from_extension(Some(b"zip")), FileType::UnknownFile));
    assert!(matches!(FileType::from_extension(None), FileType::UnknownFile));
}

#[test]
fn file_type_from_path_classifies() {
    assert!(matches!(FileType::from_path(b"/a/b/job.sl1", false), FileType::SL1));
    assert!(matches!(FileType::from_path(b"/a/b", true), FileType::Directory));
    assert!(matches!(FileType::from_path(b"/a/b/readme.txt", false), FileType::UnknownFile));
    assert!(matches!(FileType::from_path(b"/a/b/noext", false), FileType::UnknownFile));
    assert!(matches!(FileType::from_path(b"/a/b/.hidden", false), FileType::UnknownFile));
}

#[test]
fn file_metadata_from_path_builds_name_and_type() {
    let dir = upload_dir();
    let meta = FileMetadata::from_path(b"sub/job.sl1".to_vec(), &dir, false, 1234, Some(99))
        .expect("metadata");
    assert_eq!(meta.name, b"job.sl1".to_vec());
    assert_eq!(meta.path, b"sub/job.sl1".to_vec());
    assert_eq!(meta.file_size, 1234);
    assert_eq!(meta.last_modified, Some(99));
    assert!(matches!(meta.file_type, FileType::SL1));
    assert_eq!(meta.get_full_path(), b"/var/prints/sub/job.sl1".to_vec());
}

#[test]
fn file_metadata_from_path_refuses_nameless_paths() {
    let dir = upload_dir();
    let err = FileMetadata::from_path(b"sub/".to_vec(), &dir, false, 0, None).unwrap_err();
    assert!(matches!(err.error_type, ErrorType::FileError));
    assert_eq!(err.error_code, 404);
}

#[test]
fn get_file_from_subdir_joins_paths() {
    let dir = upload_dir();
    let meta = dir
        .get_file_from_subdir(b"job.sl1", Some(b"queue".to_vec()), false, 10, None)
        .expect("metadata");
    assert_eq!(meta.path, b"queue/job.sl1".to_vec());
    let meta = dir
        .get_file_from_subdir(b"job.sl1", None, false, 10, None)
        .expect("metadata");
    assert_eq!(meta.path, b"job.sl1".to_vec());
}

#[test]
fn join_paths_inserts_one_separator() {
    assert_eq!(join_paths(b"/a/b", b"c"), b"/a/b/c".to_vec());
    assert_eq!(join_paths(b"/a/b/", b"c"), b"/a/b/c".to_vec());
    assert_eq!(join_paths(b"", b"c"), b"c".to_vec());
    assert_eq!(join_paths(b"/a", b"/abs"), b"/abs".to_vec());
}

#[test]
fn xattr_decoding() {
    assert_eq!(print_count_from_xattr(Some(vec![0, 0, 1, 2])), 258);
    assert_eq!(print_count_from_xattr(Some(vec![1, 2])), 0);
    assert_eq!(print_count_from_xattr(None), 0);
    assert_eq!(rating_from_xattr(Some(vec![4])), Some(4));
    assert_eq!(rating_from_xattr(Some(vec![4, 5])), None);
    assert_eq!(rating_from_xattr(None), None);
    assert!(favorite_from_xattr(Some(vec![1])));
    assert!(!favorite_from_xattr(Some(vec![0])));
    assert!(!favorite_from_xattr(None));
    let meta = user_metadata_from_xattrs(Some(vec![0, 0, 0, 7]), Some(vec![2]), None);
    assert_eq!(meta.print_count, 7);
    assert!(meta.favorite);
    assert_eq!(meta.rating, None);
}

#[test]
fn pagination_defaults_and_next_index() {
    // Defaults: page 0 of 100.
    assert_eq!(paginate(7, None, None), (0, 7, None));
    assert_eq!(paginate(250, None, None), (0, 100, Some(1)));
    assert_eq!(paginate(250, Some(1), None), (100, 200, Some(2)));
    assert_eq!(paginate(250, Some(2), None), (200, 250, None));
    assert_eq!(paginate(250, Some(3), None), (250, 250, None));
    assert_eq!(paginate(10, Some(1), Some(4)), (4, 8, Some(2)));
    assert_eq!(paginate(8, Some(1), Some(4)), (4, 8, None));
}

#[test]
fn classification_splits_by_type_in_order() {
    let dir = upload_dir();
    let entries = vec![
        FileMetadata::from_path(b"a.sl1".to_vec(), &dir, false, 0, None).unwrap(),
        FileMetadata::from_path(b"docs".to_vec(), &dir, true, 0, None).unwrap(),
        FileMetadata::from_path(b"b.txt".to_vec(), &dir, false, 0, None).unwrap(),
        FileMetadata::from_path(b"c.sl1".to_vec(), &dir, false, 0, None).unwrap(),
    ];
    let (dirs, prints, files) = classify_entries(entries);
    assert_eq!(dirs.len(), 1);
    assert_eq!(dirs[0].name, b"docs".to_vec());
    assert_eq!(prints.len(), 2);
    assert_eq!(prints[0].name, b"a.sl1".to_vec());
    assert_eq!(prints[1].name, b"c.sl1".to_vec());
    assert_eq!(files.len(), 1);
    assert_eq!(files[0].name, b"b.txt".to_vec());
}

#[test]
fn io_kinds_map_to_status_hints() {
    assert_eq!(OdysseyError::from_io_kind(IoKind::NotFound, Vec::new()).error_code, 404);
    assert_eq!(OdysseyError::from_io_kind(IoKind::PermissionDenied, Vec::new()).error_code, 403);
    assert_eq!(OdysseyError::from_io_kind(IoKind::AlreadyExists, Vec::new()).error_code, 409);
    assert_eq!(OdysseyError::from_io_kind(IoKind::StorageFull, Vec::new()).error_code, 507);
    assert_eq!(OdysseyError::from_io_kind(IoKind::FileTooLarge, Vec::new()).error_code, 413);
    assert_eq!(OdysseyError::from_io_kind(IoKind::InvalidData, Vec::new()).error_code, 400);
    assert_eq!(OdysseyError::from_io_kind(IoKind::Other, Vec::new()).error_code, 500);
    let e = OdysseyError::from_io_kind(IoKind::NotFound, b"gone".to_vec());
    assert!(matches!(e.error_type, ErrorType::FileError));
    assert_eq!(e.message, b"gone".to_vec());
}

#[test]
fn trimming_strips_ini_whitespace() {
    assert_eq!(trim_bytes(b"  layerHeight \t"), b"layerHeight".to_vec());
    assert_eq!(trim_bytes(b"0.05\r"), b"0.05".to_vec());
    assert_eq!(trim_bytes(b"   "), Vec::<u8>::new());
}

#[test]
fn pagination_of_an_empty_listing() {
    assert_eq!(paginate(0, None, None), (0, 0, None));
    assert_eq!(paginate(0, Some(5), Some(10)), (0, 0, None));
}

#[test]
fn classification_of_an_empty_page() {
    let (dirs, prints, files) = classify_entries(Vec::new());
    assert!(dirs.is_empty());
    assert!(prints.is_empty());
    assert!(files.is_empty());
}
