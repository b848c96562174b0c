use raw_manager::consistency::is_within;
use raw_manager::listing::text_not_after;
use raw_manager::paths::{is_supported_raw, sanitize_relative, strip_slashes};
use raw_manager::text::{find, find_char, parse_i32, trim, trim_start};
use raw_manager::xmp::{extract_xmp_rating, parse_xmp_rating};
use std::path::{Component, Path};

/// A small deterministic generator of test inputs.
struct Gen(u64);

impl Gen {
    fn next(&mut self) -> u64 {
        self.0 = self.0.wrapping_mul(6364136223846793005).wrapping_add(1442695040888963407);
        self.0 >> 33
    }

    fn below(&mut self, n: usize) -> usize {
        (self.next() % n as u64) as usize
    }

    fn text(&mut self, alphabet: &[&str], max_len: usize) -> String {
        let len = self.below(max_len + 1);
        let mut s = String::new();
        for _ in 0..len {
            s.push_str(alphabet[self.below(alphabet.len())]);
        }
        s
    }
}

fn chars(s: &str) -> Vec<char> {
    s.chars().collect()
}

fn text_of(c: &[char]) -> String {
    c.iter().collect()
}

fn char_index(s: &str, byte_index: usize) -> usize {
    s[..byte_index].chars().count()
}

#[test]
fn find_agrees_with_str_find() {
    let mut g = Gen(1);
    let alphabet = ["a", "b", "ab", "\u{e9}", "\u{1F600}"];
    for _ in 0..4000 {
        let hay = g.text(&alphabet, 12);
        let needle = g.text(&alphabet, 3);
        let expected = hay.find(needle.as_str()).map(|i| char_index(&hay, i));
        assert_eq!(find(&chars(&hay), &chars(&needle)), expected, "{:?} {:?}", hay, needle);
        let expected = hay.find('b').map(|i| char_index(&hay, i));
        assert_eq!(find_char(&chars(&hay), 'b'), expected, "{:?}", hay);
    }
}

#[test]
fn trim_agrees_with_str_trim() {
    let mut g = Gen(2);
    let alphabet = [" ", "\t", "\n", "\u{A0}", "\u{2003}", "\u{200B}", "a", "b", "\u{e9}"];
    for _ in 0..4000 {
        let s = g.text(&alphabet, 10);
        assert_eq!(text_of(trim(&chars(&s))), s.trim(), "{:?}", s);
        assert_eq!(text_of(trim_start(&chars(&s))), s.trim_start(), "{:?}", s);
    }
}

#[test]
fn strip_slashes_agrees_with_trim_matches() {
    let mut g = Gen(3);
    let alphabet = ["/", "/", "a", ".", "\u{e9}"];
    for _ in 0..4000 {
        let s = g.text(&alphabet, 10);
        assert_eq!(text_of(strip_slashes(&chars(&s))), s.trim_matches('/'), "{:?}", s);
    }
}

#[test]
fn parse_i32_agrees_with_str_parse() {
    let mut g = Gen(4);
    let alphabet = ["0", "1", "2", "9", "-", "+", " ", "a", "4", "7", "8", "3"];
    for _ in 0..20000 {
        let s = g.text(&alphabet, 12);
        assert_eq!(parse_i32(&chars(&s)), s.parse::<i32>().ok(), "{:?}", s);
    }
}

#[test]
fn text_order_agrees_with_string_order() {
    let mut g = Gen(5);
    let alphabet = ["a", "b", "A", "\u{e9}", "\u{1F600}", "\u{7f}", "\u{80}", "\u{7ff}", "\u{800}", "\u{ffff}"];
    for _ in 0..4000 {
        let a = g.text(&alphabet, 5);
        let b = g.text(&alphabet, 5);
        assert_eq!(text_not_after(&chars(&a), &chars(&b)), a <= b, "{:?} {:?}", a, b);
    }
}

fn has_parent_component(trimmed: &str) -> bool {
    Path::new(trimmed).components().any(|c| matches!(c, Component::ParentDir))
}

#[test]
fn sanitize_agrees_with_path_components() {
    let mut g = Gen(6);
    let alphabet = ["/", "/", ".", ".", "..", "a", "b."];
    for _ in 0..8000 {
        let s = g.text(&alphabet, 8);
        let trimmed = s.trim_matches('/');
        match sanitize_relative(&s) {
            Ok(rel) => {
                assert!(!has_parent_component(trimmed), "{:?}", s);
                assert_eq!(rel.text, trimmed, "{:?}", s);
            }
            Err(_) => assert!(has_parent_component(trimmed), "{:?}", s),
        }
    }
}

fn supported_by_extension(path: &str) -> bool {
    let ext = Path::new(path)
        .extension()
        .and_then(|e| e.to_str())
        .map(|s| s.to_lowercase())
        .unwrap_or_default();
    matches!(
        ext.as_str(),
        "arw" | "dng" | "cr2" | "cr3" | "nef" | "raf" | "orf" | "rw2" | "srw" | "pef"
    )
}

#[test]
fn supported_raw_agrees_with_path_extension() {
    let mut g = Gen(7);
    let alphabet = ["a", ".", ".", "/", "dng", "DNG", "Cr2", "nef", "x", "arw"];
    let mut checked = 0;
    for _ in 0..20000 {
        let s = g.text(&alphabet, 6);
        // Paths that end in a separator or a dot segment name no file here.
        if s.ends_with('/') || s.ends_with("/.") || s == "." {
            continue;
        }
        assert_eq!(is_supported_raw(&s), supported_by_extension(&s), "{:?}", s);
        checked += 1;
    }
    assert!(checked > 10000);
}

#[test]
fn within_agrees_with_path_starts_with_on_resolved_paths() {
    let mut g = Gen(8);
    let names = ["a", "b", "ab", "a b", "\u{e9}"];
    for _ in 0..8000 {
        let mut path = String::new();
        for _ in 0..g.below(4) {
            path.push('/');
            path.push_str(names[g.below(names.len())]);
        }
        let mut dir = String::new();
        for _ in 0..g.below(4) {
            dir.push('/');
            dir.push_str(names[g.below(names.len())]);
        }
        if path.is_empty() {
            path.push('/');
        }
        if dir.is_empty() {
            dir.push('/');
        }
        assert_eq!(
            is_within(&path, &dir),
            Path::new(&path).starts_with(Path::new(&dir)),
            "{:?} {:?}",
            path,
            dir
        );
    }
}

fn clamp(v: i32) -> i32 {
    v.clamp(0, 5)
}

/// The rating of a packet, read with the string functions of std.
fn rating_by_std(xmp: &str) -> Option<i32> {
    let key = "xmp:Rating";
    if let Some(index) = xmp.find(key) {
        let tail = xmp[index + key.len()..].trim_start();
        if let Some(value) = tail.strip_prefix('=') {
            let after = value.trim_start();
            if let Some(quote) = after.chars().next() {
                if quote == '\'' || quote == '"' {
                    if let Some(close) = after[1..].find(quote) {
                        if let Ok(v) = after[1..1 + close].trim().parse::<i32>() {
                            return Some(clamp(v));
                        }
                    }
                }
            }
        }
    }
    let open = "<xmp:Rating>";
    if let Some(start) = xmp.find(open) {
        let tail = &xmp[start + open.len()..];
        if let Some(close) = tail.find("</xmp:Rating>") {
            if let Ok(v) = tail[..close].trim().parse::<i32>() {
                return Some(clamp(v));
            }
        }
    }
    None
}

fn embedded_by_std(text: &str) -> Option<i32> {
    let close = "</x:xmpmeta>";
    match (text.find("<x:xmpmeta"), text.find(close)) {
        (Some(s), Some(e)) if e > s => rating_by_std(&text[s..e + close.len()]),
        _ => None,
    }
}

#[test]
fn xmp_rating_agrees_with_a_reading_by_std() {
    let mut g = Gen(9);
    let alphabet = [
        "xmp:Rating", "<xmp:Rating>", "</xmp:Rating>", "=", "\"", "'", " ", "\u{A0}", "3", "7",
        "-", "12", "a", "<x:xmpmeta", "</x:xmpmeta>", ">", "\u{e9}",
    ];
    for _ in 0..20000 {
        let s = g.text(&alphabet, 9);
        assert_eq!(parse_xmp_rating(&s), rating_by_std(&s), "{:?}", s);
        assert_eq!(extract_xmp_rating(&s), embedded_by_std(&s), "{:?}", s);
    }
}

#[test]
fn xmp_rating_of_likely_packets_agrees_with_a_reading_by_std() {
    let mut g = Gen(10);
    let lead = ["", "junk ", "<x:xmpmeta ", "<x:xmpmeta><rdf ", "</x:xmpmeta><x:xmpmeta>", "=\"9\" "];
    let key = ["xmp:Rating", "xmp:Rating ", "xmp:Ratin", "<xmp:Rating>", "Xmp:Rating"];
    let eq = ["=", " = ", "=\u{A0}", "", "==", ">x=", " other=", "\u{2003}="];
    let open = ["\"", "'", "", "\u{201C}"];
    let value = ["3", " 4 ", "7", "-2", "+5", "", "x", "2147483648", "005", "1.5", "\u{A0}2\n"];
    let close = ["\"", "'", "", "</xmp:Rating>"];
    let tail = ["", "/>", "</x:xmpmeta>", "<xmp:Rating>1</xmp:Rating></x:xmpmeta>", " y='2'"];
    let mut some = 0;
    let mut embedded = 0;
    for _ in 0..40000 {
        let s = format!(
            "{}{}{}{}{}{}{}",
            lead[g.below(lead.len())],
            key[g.below(key.len())],
            eq[g.below(eq.len())],
            open[g.below(open.len())],
            value[g.below(value.len())],
            close[g.below(close.len())],
            tail[g.below(tail.len())],
        );
        let expected = rating_by_std(&s);
        if expected.is_some() {
            some += 1;
        }
        if embedded_by_std(&s).is_some() {
            embedded += 1;
        }
        assert_eq!(parse_xmp_rating(&s), expected, "{:?}", s);
        assert_eq!(extract_xmp_rating(&s), embedded_by_std(&s), "{:?}", s);
    }
    assert!(some > 1000);
    assert!(embedded > 100);
}
