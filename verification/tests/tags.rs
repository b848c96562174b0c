use raw_manager::tags::{decode_tags, encode_tags, normalize_tags, tags_or_empty, unique_by_key};

fn strings(items: &[&str]) -> Vec<String> {
    items.iter().map(|s| s.to_string()).collect()
}

#[test]
fn tags_are_trimmed_and_blank_tags_are_dropped() {
    assert_eq!(normalize_tags(&strings(&["  sky ", "", "   ", "sea\n"])), strings(&["sky", "sea"]));
    assert_eq!(normalize_tags(&strings(&[])), strings(&[]));
    assert_eq!(normalize_tags(&strings(&["", " "])), strings(&[]));
}

#[test]
fn tags_that_differ_in_case_only_keep_the_first() {
    assert_eq!(
        normalize_tags(&strings(&["Sky", "sky", "SKY", "Sea", " sky ", "sea"])),
        strings(&["Sky", "Sea"])
    );
    assert_eq!(normalize_tags(&strings(&["\u{c9}t\u{e9}", "\u{e9}T\u{c9}"])), strings(&["\u{c9}t\u{e9}"]));
}

#[test]
fn tags_keep_the_order_of_the_edit() {
    assert_eq!(normalize_tags(&strings(&["c", "a", "b", "A", "c"])), strings(&["c", "a", "b"]));
    assert_eq!(normalize_tags(&strings(&["sky line", "skyline"])), strings(&["sky line", "skyline"]));
}

#[test]
fn normalizing_twice_changes_nothing_more() {
    let once = normalize_tags(&strings(&[" B ", "a", "b", "", "A "]));
    assert_eq!(once, strings(&["B", "a"]));
    assert_eq!(normalize_tags(&once), once);
}

#[test]
fn tags_are_persisted_as_a_json_array() {
    assert_eq!(encode_tags(&strings(&["a", "b c"])), Some("[\"a\",\"b c\"]".to_string()));
    assert_eq!(encode_tags(&strings(&[])), Some("[]".to_string()));
    assert_eq!(
        encode_tags(&strings(&["quote\"d", "back\\slash", "\u{e9}"])),
        Some("[\"quote\\\"d\",\"back\\\\slash\",\"\u{e9}\"]".to_string())
    );
}

#[test]
fn persisted_tags_are_read_back() {
    assert_eq!(decode_tags(Some("[\"a\",\"b c\"]")), strings(&["a", "b c"]));
    assert_eq!(decode_tags(Some(" [ \"x\" ] ")), strings(&["x"]));
    assert_eq!(decode_tags(Some("[]")), strings(&[]));
    assert_eq!(decode_tags(Some("[\"\\u00e9\"]")), strings(&["\u{e9}"]));
}

#[test]
fn tags_round_trip_through_their_persisted_form() {
    let lists = [
        strings(&[]),
        strings(&["a"]),
        strings(&["b", "a", "B"]),
        strings(&["with \"quotes\"", "new\nline", "tab\t", "\u{1F600}", "", "[\"nested\"]"]),
    ];
    for list in lists {
        let text = encode_tags(&list).expect("a list of strings can be written");
        assert_eq!(decode_tags(Some(&text)), list);
    }
}

#[test]
fn absent_or_unparseable_tags_are_the_empty_list() {
    assert_eq!(decode_tags(None), strings(&[]));
    for bad in ["", "null", "{}", "[1,2]", "[\"a\"", "\"a\"", "[\"a\",]", "not json", "[null]"] {
        assert_eq!(decode_tags(Some(bad)), strings(&[]), "{:?}", bad);
    }
    assert_eq!(tags_or_empty(None), strings(&[]));
    assert_eq!(tags_or_empty(Some(None)), strings(&[]));
    assert_eq!(tags_or_empty(Some(Some(strings(&["a"])))), strings(&["a"]));
}

#[test]
fn first_tag_of_each_key_is_kept() {
    let pair = |tag: &str, key: &str| (tag.to_string(), key.to_string());
    assert_eq!(
        unique_by_key(vec![pair("B", "k1"), pair("a", "k2"), pair("c", "k1"), pair("", "k3"), pair("d", "k3")]),
        strings(&["B", "a", "d"])
    );
    assert_eq!(unique_by_key(vec![pair("x", ""), pair("y", "")]), strings(&["x"]));
    assert_eq!(unique_by_key(vec![]), strings(&[]));
    // The key decides, not the tag.
    assert_eq!(unique_by_key(vec![pair("same", "1"), pair("same", "2")]), strings(&["same", "same"]));
}
