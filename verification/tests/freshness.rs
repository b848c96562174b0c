use raw_manager::cache::{get_file_meta, upsert_file_meta, upsert_tags, upsert_user_rating, FileMeta, MetaStore};
use raw_manager::exif::Rational;
use raw_manager::freshness::{
    classify, lookup_fresh, merge_extracted, needs_scan, refresh, resync, Freshness,
};
use raw_manager::metadata::{ExtractedMeta, GpsAngle};

fn cached(orientation: Option<i32>) -> FileMeta {
    FileMeta {
        path: "a/x.raw".to_string(),
        camera_rating: Some(1),
        user_rating: Some(2),
        tags: vec!["one".to_string(), "two".to_string()],
        gps_lat: None,
        gps_lon: None,
        taken_at: None,
        orientation,
        file_size: 100,
        last_modified: 200,
    }
}

fn north() -> GpsAngle {
    GpsAngle {
        negative: false,
        degrees: Rational { num: 1, denom: 1 },
        minutes: Rational { num: 2, denom: 1 },
        seconds: Rational { num: 3, denom: 1 },
    }
}

fn extracted(orientation: Option<i32>) -> ExtractedMeta {
    ExtractedMeta {
        camera_rating: Some(5),
        gps_lat: Some(north()),
        gps_lon: Some(north()),
        taken_at: Some("2020-01-02 03:04:05".to_string()),
        orientation,
    }
}

#[test]
fn record_is_fresh_when_token_matches_and_orientation_is_present() {
    assert_eq!(classify(Some(&cached(Some(1))), 100, 200), Freshness::Fresh);
    assert_eq!(classify(Some(&cached(Some(0))), 100, 200), Freshness::Fresh);
    assert!(!needs_scan(Some(&cached(Some(1))), 100, 200));
}

#[test]
fn changed_size_or_time_makes_a_record_stale() {
    assert_eq!(classify(Some(&cached(Some(1))), 101, 200), Freshness::StaleSizeOrTime);
    assert_eq!(classify(Some(&cached(Some(1))), 100, 201), Freshness::StaleSizeOrTime);
    assert_eq!(classify(Some(&cached(Some(1))), 0, 0), Freshness::StaleSizeOrTime);
    assert_eq!(classify(Some(&cached(None)), 101, 200), Freshness::StaleSizeOrTime);
    assert!(needs_scan(Some(&cached(Some(1))), 101, 200));
    assert!(needs_scan(Some(&cached(Some(1))), 100, 199));
}

#[test]
fn missing_orientation_makes_a_record_stale() {
    assert_eq!(classify(Some(&cached(None)), 100, 200), Freshness::StaleMissingAttribute);
    assert!(needs_scan(Some(&cached(None)), 100, 200));
}

#[test]
fn path_without_record_needs_a_scan() {
    assert_eq!(classify(None, 100, 200), Freshness::NoRecord);
    assert!(needs_scan(None, 100, 200));
}

#[test]
fn merge_takes_extracted_fields_and_keeps_user_fields() {
    let prior = cached(None);
    assert_eq!(
        merge_extracted("a/x.raw", extracted(Some(8)), Some(&prior), 300, 400),
        FileMeta {
            path: "a/x.raw".to_string(),
            camera_rating: Some(5),
            user_rating: Some(2),
            tags: vec!["one".to_string(), "two".to_string()],
            gps_lat: Some(north()),
            gps_lon: Some(north()),
            taken_at: Some("2020-01-02 03:04:05".to_string()),
            orientation: Some(8),
            file_size: 300,
            last_modified: 400,
        }
    );
}

#[test]
fn merge_without_prior_record_has_no_user_fields() {
    let merged = merge_extracted("n.raw", extracted(Some(3)), None, 1, 2);
    assert_eq!(merged.user_rating, None);
    assert_eq!(merged.tags, Vec::<String>::new());
    assert_eq!(merged.path, "n.raw");
    assert_eq!(merged.camera_rating, Some(5));
}

#[test]
fn merge_leaves_a_missing_orientation_missing() {
    let merged = merge_extracted("n.raw", extracted(None), None, 1, 2);
    assert_eq!(merged.orientation, None);
    assert_eq!(classify(Some(&merged), 1, 2), Freshness::StaleMissingAttribute);
    let merged = merge_extracted("n.raw", extracted(None), Some(&cached(Some(3))), 1, 2);
    assert_eq!(merged.orientation, None);
    assert_eq!(merged.user_rating, Some(2));
}

#[test]
fn fresh_record_is_served_from_the_cache() {
    let mut store = MetaStore::new();
    upsert_file_meta(&mut store, &cached(Some(1)));
    assert_eq!(lookup_fresh(&store, "a/x.raw", 100, 200), Some(cached(Some(1))));
    assert_eq!(lookup_fresh(&store, "a/x.raw", 100, 201), None);
    assert_eq!(lookup_fresh(&store, "a/x.raw", 99, 200), None);
    assert_eq!(lookup_fresh(&store, "a/y.raw", 100, 200), None);
    let mut backfill = MetaStore::new();
    upsert_file_meta(&mut backfill, &cached(None));
    assert_eq!(lookup_fresh(&backfill, "a/x.raw", 100, 200), None);
}

#[test]
fn resync_writes_the_merged_record_and_makes_it_fresh() {
    let mut store = MetaStore::new();
    upsert_file_meta(&mut store, &cached(None));
    let record = resync(&mut store, "a/x.raw", extracted(Some(6)), 100, 200);
    assert_eq!(record.user_rating, Some(2));
    assert_eq!(record.tags, vec!["one".to_string(), "two".to_string()]);
    assert_eq!(record.orientation, Some(6));
    assert_eq!(get_file_meta(&store, "a/x.raw"), Some(record.clone()));
    assert_eq!(lookup_fresh(&store, "a/x.raw", 100, 200), Some(record));
    // A later change of the file makes the record stale again.
    assert_eq!(lookup_fresh(&store, "a/x.raw", 100, 300), None);
}

#[test]
fn resync_without_orientation_leaves_the_record_stale() {
    let mut store = MetaStore::new();
    upsert_file_meta(&mut store, &cached(Some(3)));
    let record = resync(&mut store, "a/x.raw", extracted(None), 100, 200);
    assert_eq!(record.orientation, None);
    assert_eq!(record.camera_rating, Some(5));
    assert_eq!(record.user_rating, Some(2));
    assert_eq!((record.file_size, record.last_modified), (100, 200));
    assert_eq!(get_file_meta(&store, "a/x.raw"), Some(record.clone()));
    assert_eq!(classify(Some(&record), 100, 200), Freshness::StaleMissingAttribute);
    assert_eq!(lookup_fresh(&store, "a/x.raw", 100, 200), None);
}

#[test]
fn resync_of_a_new_path_creates_its_record() {
    let mut store = MetaStore::new();
    let record = resync(&mut store, "new.raw", extracted(Some(6)), 7, 8);
    assert_eq!(record.path, "new.raw");
    assert_eq!(record.user_rating, None);
    assert_eq!(store.len(), 1);
    assert_eq!(lookup_fresh(&store, "new.raw", 7, 8), Some(record));
}

#[test]
fn edits_that_race_a_resync_survive_it() {
    let mut store = MetaStore::new();
    upsert_user_rating(&mut store, "a/x.raw", Some(4), 100, 200);
    upsert_tags(&mut store, "a/x.raw", &vec!["kept".to_string()], 100, 200);
    // The edits recorded the token, but the record has no orientation yet.
    assert_eq!(lookup_fresh(&store, "a/x.raw", 100, 200), None);
    let record = resync(&mut store, "a/x.raw", extracted(Some(1)), 100, 200);
    assert_eq!(record.user_rating, Some(4));
    assert_eq!(record.tags, vec!["kept".to_string()]);
    assert_eq!(record.camera_rating, Some(5));
}

#[test]
fn refresh_reads_the_file_and_updates_the_record() {
    let mut store = MetaStore::new();
    upsert_user_rating(&mut store, "a/x.raw", Some(4), 1, 1);
    let data = b"not a container <x:xmpmeta><rdf xmp:Rating=\"2\"/></x:xmpmeta>";
    let record = refresh(&mut store, "a/x.raw", data, None, 60, 70);
    assert_eq!(
        record,
        FileMeta {
            path: "a/x.raw".to_string(),
            camera_rating: Some(2),
            user_rating: Some(4),
            tags: vec![],
            gps_lat: None,
            gps_lon: None,
            taken_at: None,
            orientation: None,
            file_size: 60,
            last_modified: 70,
        }
    );
    assert_eq!(get_file_meta(&store, "a/x.raw"), Some(record));
    // The file gave no orientation, so the next read extracts again.
    assert_eq!(lookup_fresh(&store, "a/x.raw", 60, 70), None);
}
