use raw_manager::preview::{ensure_preview, is_preview_current, FileTime, PreviewOutcome};

fn at(secs: i64, nanos: u32) -> Option<FileTime> {
    Some(FileTime { secs, nanos })
}

#[test]
fn preview_is_current_when_not_older_than_its_source() {
    assert!(is_preview_current(at(10, 0), at(10, 0)));
    assert!(is_preview_current(at(10, 5), at(10, 5)));
    assert!(is_preview_current(at(10, 5), at(10, 6)));
    assert!(is_preview_current(at(10, 999), at(11, 0)));
    assert!(is_preview_current(at(-5, 0), at(-4, 0)));
    assert!(!is_preview_current(at(10, 5), at(10, 4)));
    assert!(!is_preview_current(at(11, 0), at(10, 999)));
}

#[test]
fn preview_is_not_current_when_a_time_is_unknown() {
    assert!(!is_preview_current(None, at(10, 0)));
    assert!(!is_preview_current(at(10, 0), None));
    assert!(!is_preview_current(None, None));
}

#[test]
fn current_preview_is_kept_without_a_scan() {
    let data = [0xFF, 0xD8, 0x00, 0xFF, 0xD9];
    assert_eq!(ensure_preview(at(1, 0), at(2, 0), &data), PreviewOutcome::Cached);
    assert_eq!(ensure_preview(at(1, 0), at(2, 0), &[]), PreviewOutcome::Cached);
    assert!(ensure_preview(at(1, 0), at(2, 0), &[]).is_available());
}

#[test]
fn stale_preview_is_written_from_the_largest_image() {
    let data = [0x09, 0xFF, 0xD8, 0x00, 0xFF, 0xD9, 0x09];
    let outcome = ensure_preview(at(3, 0), at(2, 0), &data);
    assert_eq!(outcome, PreviewOutcome::Write(vec![0xFF, 0xD8, 0x00, 0xFF, 0xD9]));
    assert!(outcome.is_available());
    assert_eq!(
        ensure_preview(at(3, 0), None, &data),
        PreviewOutcome::Write(vec![0xFF, 0xD8, 0x00, 0xFF, 0xD9])
    );
}

#[test]
fn source_without_an_image_has_no_preview() {
    let outcome = ensure_preview(at(3, 0), None, &[0x00, 0x01, 0x02]);
    assert_eq!(outcome, PreviewOutcome::Unavailable);
    assert!(!outcome.is_available());
}
