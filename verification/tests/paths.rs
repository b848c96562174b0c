use raw_manager::error::ErrorKind;
use raw_manager::paths::{
    append_chars, is_raw_format, is_supported_raw, join_rel, library_root_setting, lies_under,
    rel_to_string, sanitize_relative, sidecar_path, strip_slashes, RelPath,
};

fn chars(s: &str) -> Vec<char> {
    s.chars().collect()
}

fn rel(s: &str) -> RelPath {
    RelPath { text: s.to_string() }
}

#[test]
fn slashes_are_stripped_at_both_ends_only() {
    assert_eq!(strip_slashes(&chars("/a/b/")), &chars("a/b")[..]);
    assert_eq!(strip_slashes(&chars("///a//b///")), &chars("a//b")[..]);
    assert_eq!(strip_slashes(&chars("a")), &chars("a")[..]);
    assert_eq!(strip_slashes(&chars("///")), &chars("")[..]);
    assert_eq!(strip_slashes(&chars("")), &chars("")[..]);
}

#[test]
fn sanitize_makes_paths_relative() {
    assert_eq!(sanitize_relative("/a/b/"), Ok(rel("a/b")));
    assert_eq!(sanitize_relative("a/b/x.raw"), Ok(rel("a/b/x.raw")));
    assert_eq!(sanitize_relative(""), Ok(rel("")));
    assert_eq!(sanitize_relative("/"), Ok(rel("")));
    assert_eq!(sanitize_relative("a/./b"), Ok(rel("a/./b")));
    assert_eq!(sanitize_relative("a/..b/c.."), Ok(rel("a/..b/c..")));
    assert_eq!(sanitize_relative("a/.../b"), Ok(rel("a/.../b")));
}

#[test]
fn sanitize_refuses_parent_segments() {
    for bad in ["..", "../a", "a/..", "a/../b", "/../", "a//../b", "a/b/../../..", "./.."] {
        let e = sanitize_relative(bad).expect_err(bad);
        assert_eq!(e.kind, ErrorKind::InvalidInput);
        assert_eq!(e.message, "Invalid path");
    }
}

#[test]
fn rel_to_string_gives_the_text() {
    let r = sanitize_relative("/2024/trip/").unwrap();
    assert_eq!(rel_to_string(&r), "2024/trip");
    assert_eq!(rel_to_string(&rel("")), "");
}

#[test]
fn join_puts_a_name_under_a_directory() {
    assert_eq!(join_rel(&rel("a/b"), "x.raw"), rel("a/b/x.raw"));
    assert_eq!(join_rel(&rel(""), "x.raw"), rel("x.raw"));
    assert_eq!(join_rel(&rel("a"), ""), rel("a/"));
}

#[test]
fn lies_under_needs_a_directory_boundary() {
    assert!(lies_under(&chars("a/b/x.raw"), &chars("a/b")));
    assert!(lies_under(&chars("a/b/"), &chars("a/b")));
    assert!(lies_under(&chars("a/b/c/d"), &chars("a")));
    assert!(!lies_under(&chars("a/b"), &chars("a/b")));
    assert!(!lies_under(&chars("a/bb/x.raw"), &chars("a/b")));
    assert!(!lies_under(&chars("a"), &chars("a/b")));
    assert!(!lies_under(&chars("xa/b/c"), &chars("a/b")));
    assert!(lies_under(&chars("/x"), &chars("")));
    assert!(!lies_under(&chars("x"), &chars("")));
}

#[test]
fn append_chars_extends_the_buffer() {
    let mut buffer = chars("ab");
    append_chars(&mut buffer, &chars("cd"));
    assert_eq!(buffer, chars("abcd"));
    append_chars(&mut buffer, &[]);
    assert_eq!(buffer, chars("abcd"));
}

#[test]
fn raw_files_are_known_by_extension_in_any_case() {
    for ext in ["arw", "dng", "cr2", "cr3", "nef", "raf", "orf", "rw2", "srw", "pef"] {
        assert!(is_supported_raw(&format!("photo.{}", ext)), "{}", ext);
        assert!(is_supported_raw(&format!("a/b/photo.{}", ext.to_uppercase())), "{}", ext);
        assert!(is_raw_format(&chars(ext)));
    }
    assert!(is_supported_raw("IMG_0001.Dng"));
    assert!(is_supported_raw("a.b.c.nef"));
    assert!(is_supported_raw("/abs/dir.d/x.CR2"));
    assert!(!is_raw_format(&chars("DNG")));
    assert!(!is_raw_format(&chars("")));
}

#[test]
fn other_files_are_not_supported() {
    for name in [
        "photo.jpg", "photo", "photo.", ".dng", "a/.dng", "dng", "photo.dng.txt", "", "..",
        "a.dng/b", "photo.dngx", "photo.xdng", "a.dng/", "photo.d\u{131}ng", "photo.\u{212A}",
    ] {
        assert!(!is_supported_raw(name), "{:?}", name);
    }
}

#[test]
fn library_root_comes_from_the_first_setting_that_is_present() {
    assert_eq!(library_root_setting(Some(" /photos "), Some("/other")), Some("/photos".to_string()));
    assert_eq!(library_root_setting(None, Some("/other\n")), Some("/other".to_string()));
    assert_eq!(library_root_setting(None, None), None);
    assert_eq!(library_root_setting(None, Some("   ")), None);
    // A primary setting that is blank configures nothing; the secondary
    // one is not consulted.
    assert_eq!(library_root_setting(Some(""), Some("/other")), None);
    assert_eq!(library_root_setting(Some(" \t"), Some("/other")), None);
}

#[test]
fn sidecar_has_the_same_name_with_the_extension_xmp() {
    let cases = [
        ("a/b/photo.dng", Some("a/b/photo.xmp")),
        ("photo.DNG", Some("photo.xmp")),
        ("/abs/dir.d/photo", Some("/abs/dir.d/photo.xmp")),
        ("a.b.c", Some("a.b.xmp")),
        ("photo.", Some("photo.xmp")),
        (".hidden", Some(".hidden.xmp")),
        ("a/.hidden.raw", Some("a/.hidden.xmp")),
        ("..", None),
        ("a/..", None),
        (".", None),
        ("a/", None),
        ("", None),
    ];
    for (path, sidecar) in cases {
        assert_eq!(sidecar_path(path), sidecar.map(|s| s.to_string()), "{:?}", path);
    }
    for path in ["a/b/photo.dng", "photo.DNG", "/abs/dir.d/photo", "a.b.c", "photo.", ".hidden"] {
        let by_std = std::path::Path::new(path).with_extension("xmp");
        assert_eq!(sidecar_path(path), Some(by_std.to_string_lossy().to_string()), "{:?}", path);
    }
}
