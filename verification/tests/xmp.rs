use raw_manager::xmp::{extract_xmp_rating, extract_xmp_rating_from_bytes, parse_xmp_rating};

#[test]
fn attribute_form_is_read() {
    assert_eq!(parse_xmp_rating("<rdf:Description xmp:Rating=\"3\"/>"), Some(3));
    assert_eq!(parse_xmp_rating("xmp:Rating='4'"), Some(4));
    assert_eq!(parse_xmp_rating("xmp:Rating =  \" 2 \""), Some(2));
    assert_eq!(parse_xmp_rating("xmp:Rating=\"0\""), Some(0));
}

#[test]
fn element_form_is_read() {
    assert_eq!(parse_xmp_rating("<xmp:Rating>4</xmp:Rating>"), Some(4));
    assert_eq!(parse_xmp_rating("<xmp:Rating>\n 1 \n</xmp:Rating>"), Some(1));
}

#[test]
fn xmp_rating_of_five_is_kept_and_seven_is_clamped() {
    assert_eq!(parse_xmp_rating("xmp:Rating=\"5\""), Some(5));
    assert_eq!(parse_xmp_rating("xmp:Rating=\"7\""), Some(5));
    assert_eq!(parse_xmp_rating("xmp:Rating=\"-1\""), Some(0));
    assert_eq!(parse_xmp_rating("<xmp:Rating>7</xmp:Rating>"), Some(5));
}

#[test]
fn attribute_form_that_fails_gives_way_to_element_form() {
    // The attribute search finds the name inside the element tag, then a
    // value that is no number; the element form still yields the rating.
    assert_eq!(parse_xmp_rating("<xmp:Rating>3</xmp:Rating> x=\"y\""), Some(3));
    assert_eq!(parse_xmp_rating("xmp:Rating=\"a\" <xmp:Rating>2</xmp:Rating>"), Some(2));
}

#[test]
fn text_without_a_rating_gives_none() {
    assert_eq!(parse_xmp_rating(""), None);
    assert_eq!(parse_xmp_rating("xmp:Rating"), None);
    assert_eq!(parse_xmp_rating("xmp:Rating=3"), None);
    assert_eq!(parse_xmp_rating("xmp:Rating=\"3"), None);
    assert_eq!(parse_xmp_rating("xmp:Rating=\"\""), None);
    assert_eq!(parse_xmp_rating("xmp:Rating=\"3.5\""), None);
    assert_eq!(parse_xmp_rating("<xmp:Rating>3"), None);
    assert_eq!(parse_xmp_rating("Rating=\"3\""), None);
}

#[test]
fn mismatched_quotes_are_not_a_value() {
    assert_eq!(parse_xmp_rating("xmp:Rating=\"3'"), None);
    assert_eq!(parse_xmp_rating("xmp:Rating='3' other=\"4\""), Some(3));
}

#[test]
fn rating_is_read_from_the_embedded_packet_only() {
    let inside = "junk<x:xmpmeta><rdf xmp:Rating=\"5\"/></x:xmpmeta>junk";
    assert_eq!(extract_xmp_rating(inside), Some(5));
    assert_eq!(extract_xmp_rating("xmp:Rating=\"5\""), None);
    assert_eq!(extract_xmp_rating("<x:xmpmeta> xmp:Rating=\"5\""), None);
    assert_eq!(extract_xmp_rating("</x:xmpmeta> xmp:Rating=\"5\" <x:xmpmeta"), None);
    assert_eq!(
        extract_xmp_rating("xmp:Rating=\"1\"<x:xmpmeta>xmp:Rating=\"2\"</x:xmpmeta>"),
        Some(2)
    );
    assert_eq!(
        extract_xmp_rating("<x:xmpmeta>a</x:xmpmeta> xmp:Rating=\"2\""),
        None
    );
}

#[test]
fn packet_is_found_among_bytes_that_are_not_text() {
    let mut data: Vec<u8> = vec![0xFF, 0xD8, 0x80, 0xC3, 0x28, 0x00];
    data.extend_from_slice("<x:xmpmeta xmlns:x=\"adobe:ns:meta/\">".as_bytes());
    data.extend_from_slice(&[0xFF, 0xFE]);
    data.extend_from_slice("<rdf:Description xmp:Rating=\"4\"/>".as_bytes());
    data.extend_from_slice("</x:xmpmeta>".as_bytes());
    data.extend_from_slice(&[0xFF, 0xD9]);
    assert_eq!(extract_xmp_rating_from_bytes(&data), Some(4));
    assert_eq!(extract_xmp_rating_from_bytes(&[0xFF, 0xD8, 0xFF, 0xD9]), None);
    assert_eq!(extract_xmp_rating_from_bytes(&[]), None);
}

#[test]
fn packet_with_characters_beyond_ascii_is_read() {
    let text = "\u{e9}<x:xmpmeta>\u{4e2d}\u{6587} xmp:Rating=\u{A0}\"3\"</x:xmpmeta>";
    assert_eq!(extract_xmp_rating_from_bytes(text.as_bytes()), Some(3));
}

#[test]
fn attribute_of_another_name_is_not_the_rating() {
    assert_eq!(
        parse_xmp_rating("<xmp:Rating>4</xmp:Rating><rdf:li xml:lang=\"1\"/>"),
        Some(4)
    );
    assert_eq!(parse_xmp_rating("<xmp:Rating>x</xmp:Rating><rdf:li xml:lang=\"1\"/>"), None);
    assert_eq!(parse_xmp_rating("xmp:Rating other=\"1\""), None);
    assert_eq!(parse_xmp_rating("xmp:RatingPercent=\"80\""), None);
    assert_eq!(parse_xmp_rating("xmp:Rating>=\"1\""), None);
    assert_eq!(parse_xmp_rating("xmp:Rating \n\t= \"1\""), Some(1));
}
