use raw_manager::cache::{get_file_meta, upsert_file_meta, FileMeta, MetaStore};
use raw_manager::consistency::{is_within, plan_delete, record_delete, record_move, DeleteAction};
use raw_manager::cache::StoreError;
use raw_manager::edits::{set_rating, set_tags, validate_rating};
use raw_manager::error::{internal_error, map_fs_error, ApiError, ErrorKind};

fn strings(items: &[&str]) -> Vec<String> {
    items.iter().map(|s| s.to_string()).collect()
}

fn record(path: &str) -> FileMeta {
    FileMeta {
        path: path.to_string(),
        camera_rating: None,
        user_rating: Some(1),
        tags: strings(&["t"]),
        gps_lat: None,
        gps_lon: None,
        taken_at: None,
        orientation: Some(1),
        file_size: 1,
        last_modified: 1,
    }
}

fn store_with(paths: &[&str]) -> MetaStore {
    let mut store = MetaStore::new();
    for p in paths {
        upsert_file_meta(&mut store, &record(p));
    }
    store
}

fn paths_of(store: &MetaStore) -> Vec<String> {
    let mut paths: Vec<String> = store.records().into_iter().map(|r| r.path).collect();
    paths.sort();
    paths
}

#[test]
fn ratings_from_zero_to_five_are_valid() {
    for r in 0..=5 {
        assert_eq!(validate_rating(Some(r)), Ok(()));
    }
    assert_eq!(validate_rating(None), Ok(()));
}

#[test]
fn ratings_out_of_range_are_invalid_input() {
    for r in [-1, 6, 100, i32::MIN, i32::MAX] {
        assert_eq!(
            validate_rating(Some(r)),
            Err(ApiError { kind: ErrorKind::InvalidInput, message: "Rating must be 0-5".to_string() })
        );
    }
}

#[test]
fn set_rating_stores_a_valid_rating() {
    let mut store = store_with(&["x.raw"]);
    assert_eq!(set_rating(&mut store, "x.raw", Some(4), 10, 20), Ok(Some(4)));
    let r = get_file_meta(&store, "x.raw").unwrap();
    assert_eq!((r.user_rating, r.file_size, r.last_modified), (Some(4), 10, 20));
    assert_eq!(r.tags, strings(&["t"]));
    assert_eq!(set_rating(&mut store, "x.raw", None, 10, 20), Ok(None));
    assert_eq!(get_file_meta(&store, "x.raw").unwrap().user_rating, None);
}

#[test]
fn set_rating_refuses_an_invalid_rating_and_changes_nothing() {
    let mut store = store_with(&["x.raw"]);
    let e = set_rating(&mut store, "x.raw", Some(6), 10, 20).unwrap_err();
    assert_eq!(e.kind, ErrorKind::InvalidInput);
    assert_eq!(get_file_meta(&store, "x.raw"), Some(record("x.raw")));
    assert!(set_rating(&mut store, "new.raw", Some(-1), 10, 20).is_err());
    assert_eq!(get_file_meta(&store, "new.raw"), None);
}

#[test]
fn set_tags_stores_the_normalized_tags() {
    let mut store = store_with(&["x.raw"]);
    let stored = set_tags(&mut store, "x.raw", &strings(&[" Sky ", "sky", "", "Sea"]), 10, 20);
    assert_eq!(stored, strings(&["Sky", "Sea"]));
    let r = get_file_meta(&store, "x.raw").unwrap();
    assert_eq!(r.tags, strings(&["Sky", "Sea"]));
    assert_eq!(r.user_rating, Some(1));
    assert_eq!((r.file_size, r.last_modified), (10, 20));
}

#[test]
fn status_codes_follow_the_kind() {
    assert_eq!(ErrorKind::NotFound.status_code(), 404);
    assert_eq!(ErrorKind::InvalidInput.status_code(), 400);
    assert_eq!(ErrorKind::Conflict.status_code(), 409);
    assert_eq!(ErrorKind::PermissionDenied.status_code(), 403);
    assert_eq!(ErrorKind::Internal.status_code(), 500);
}

#[test]
fn errors_carry_their_messages() {
    assert_eq!(
        ApiError::new(ErrorKind::Conflict, "Library not configured"),
        ApiError { kind: ErrorKind::Conflict, message: "Library not configured".to_string() }
    );
    assert_eq!(
        internal_error("disk full"),
        ApiError { kind: ErrorKind::Internal, message: "Internal error: disk full".to_string() }
    );
    assert_eq!(
        map_fs_error(true, "Unable to delete file", "ignored"),
        ApiError {
            kind: ErrorKind::PermissionDenied,
            message: "Unable to delete file: permission denied".to_string(),
        }
    );
    assert_eq!(
        map_fs_error(false, "Unable to move path", "No such file"),
        ApiError {
            kind: ErrorKind::InvalidInput,
            message: "Unable to move path: No such file".to_string(),
        }
    );
}

#[test]
fn delete_plan_follows_kind_and_flag() {
    assert_eq!(plan_delete(false, false), DeleteAction::RemoveFile);
    assert_eq!(plan_delete(false, true), DeleteAction::RemoveFile);
    assert_eq!(plan_delete(true, true), DeleteAction::RemoveTree);
    assert_eq!(plan_delete(true, false), DeleteAction::RemoveEmptyDir);
}

#[test]
fn records_follow_deletions() {
    let mut store = store_with(&["a/b/x.raw", "a/b/y.raw", "a/bb/x.raw", "a/c.raw"]);
    record_delete(&mut store, "a/c.raw", DeleteAction::RemoveFile);
    assert_eq!(paths_of(&store), strings(&["a/b/x.raw", "a/b/y.raw", "a/bb/x.raw"]));
    record_delete(&mut store, "a/b", DeleteAction::RemoveEmptyDir);
    assert_eq!(paths_of(&store), strings(&["a/b/x.raw", "a/b/y.raw", "a/bb/x.raw"]));
    record_delete(&mut store, "a/b", DeleteAction::RemoveTree);
    assert_eq!(paths_of(&store), strings(&["a/bb/x.raw"]));
}

#[test]
fn records_follow_moves() {
    let mut store = store_with(&["a/b/x.raw", "a/b/y.raw", "a/c.raw"]);
    assert_eq!(record_move(&mut store, "a/c.raw", "d.raw", false), Ok(()));
    assert_eq!(record_move(&mut store, "a/b", "z/b", true), Ok(()));
    assert_eq!(paths_of(&store), strings(&["d.raw", "z/b/x.raw", "z/b/y.raw"]));
    assert_eq!(get_file_meta(&store, "z/b/x.raw"), Some(record("z/b/x.raw")));
    // A file move does not touch what lies under a directory of that name.
    assert_eq!(record_move(&mut store, "z/b", "q", false), Ok(()));
    assert_eq!(paths_of(&store), strings(&["d.raw", "z/b/x.raw", "z/b/y.raw"]));
    assert_eq!(record_move(&mut store, "d.raw", "z/b/x.raw", false), Err(StoreError::PathTaken));
}

#[test]
fn within_guards_the_library_root() {
    assert!(is_within("/photos/2024/x.raw", "/photos"));
    assert!(is_within("/photos", "/photos"));
    assert!(!is_within("/photos2/x.raw", "/photos"));
    assert!(!is_within("/etc/passwd", "/photos"));
    assert!(!is_within("/", "/photos"));
    assert!(is_within("/etc/passwd", "/"));
    assert!(is_within("/", "/"));
    assert!(is_within("/photos/a", "/photos/"));
    assert!(!is_within("/photos", "/photos/"));
    assert!(!is_within("photos/a", ""));
    assert!(is_within("", ""));
}
