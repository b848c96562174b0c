use raw_manager::cache::FileMeta;
use raw_manager::persist::{ensure_files_schema, init_db, row_to_meta, FileRow, SchemaStep};

fn strings(items: &[&str]) -> Vec<String> {
    items.iter().map(|s| s.to_string()).collect()
}

fn row(tags: Option<&str>) -> FileRow {
    FileRow {
        path: "a/x.raw".to_string(),
        camera_rating: Some(1),
        user_rating: None,
        tags: tags.map(|t| t.to_string()),
        gps_lat: None,
        gps_lon: None,
        taken_at: Some("2020-01-02 03:04:05".to_string()),
        orientation: Some(3),
        file_size: 10,
        last_modified: 20,
    }
}

fn add(name: &str, definition: &str) -> SchemaStep {
    SchemaStep::AddColumn { name: name.to_string(), definition: definition.to_string() }
}

#[test]
fn row_becomes_a_record_with_parsed_tags() {
    assert_eq!(
        row_to_meta(row(Some("[\"b\",\"a\"]"))),
        FileMeta {
            path: "a/x.raw".to_string(),
            camera_rating: Some(1),
            user_rating: None,
            tags: strings(&["b", "a"]),
            gps_lat: None,
            gps_lon: None,
            taken_at: Some("2020-01-02 03:04:05".to_string()),
            orientation: Some(3),
            file_size: 10,
            last_modified: 20,
        }
    );
}

#[test]
fn row_with_absent_or_broken_tags_becomes_a_record_without_tags() {
    assert_eq!(row_to_meta(row(None)).tags, strings(&[]));
    assert_eq!(row_to_meta(row(Some("oops"))).tags, strings(&[]));
    assert_eq!(row_to_meta(row(Some(""))).tags, strings(&[]));
}

#[test]
fn table_that_does_not_exist_needs_no_step() {
    assert_eq!(ensure_files_schema(&strings(&[]), 42), vec![]);
}

#[test]
fn table_without_the_key_column_is_renamed_aside_and_recreated() {
    assert_eq!(
        ensure_files_schema(&strings(&["id", "name", "tags"]), 1_700_000_000),
        vec![SchemaStep::RenameLegacy { suffix: 1_700_000_000 }, SchemaStep::CreateTable]
    );
    assert_eq!(
        ensure_files_schema(&strings(&["PATH"]), 0),
        vec![SchemaStep::RenameLegacy { suffix: 0 }, SchemaStep::CreateTable]
    );
}

#[test]
fn missing_columns_are_added_in_order() {
    assert_eq!(
        ensure_files_schema(&strings(&["path"]), 9),
        vec![
            add("camera_rating", "INTEGER"),
            add("user_rating", "INTEGER"),
            add("tags", "TEXT"),
            add("gps_lat", "REAL"),
            add("gps_lon", "REAL"),
            add("taken_at", "TEXT"),
            add("orientation", "INTEGER"),
            add("file_size", "INTEGER NOT NULL DEFAULT 0"),
            add("last_modified", "INTEGER NOT NULL DEFAULT 0"),
        ]
    );
    assert_eq!(
        ensure_files_schema(
            &strings(&[
                "last_modified", "path", "camera_rating", "user_rating", "tags", "gps_lat",
                "gps_lon", "taken_at", "file_size", "extra",
            ]),
            9
        ),
        vec![add("orientation", "INTEGER")]
    );
}

#[test]
fn current_table_needs_no_step() {
    assert_eq!(
        ensure_files_schema(
            &strings(&[
                "path", "camera_rating", "user_rating", "tags", "gps_lat", "gps_lon", "taken_at",
                "orientation", "file_size", "last_modified",
            ]),
            9
        ),
        vec![]
    );
}

#[test]
fn startup_creates_a_missing_table_and_upgrades_an_old_one() {
    assert_eq!(init_db(&strings(&[]), 5), vec![SchemaStep::CreateTable]);
    assert_eq!(
        init_db(&strings(&["id"]), 5),
        vec![SchemaStep::RenameLegacy { suffix: 5 }, SchemaStep::CreateTable]
    );
    assert_eq!(
        init_db(
            &strings(&[
                "path", "camera_rating", "user_rating", "tags", "gps_lat", "gps_lon", "taken_at",
                "file_size", "last_modified",
            ]),
            5
        ),
        vec![add("orientation", "INTEGER")]
    );
}
