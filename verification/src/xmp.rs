//! Star ratings held in XMP packets, embedded in a file's bytes or kept in a
//! sidecar file.

use crate::text::{
    chars_of, clamp_rating, clamp_stars, decode_lossy, find, find_char, find_char_spec, find_spec,
    parse_i32, parse_i32_spec, trim, trim_spec, trim_start, trim_start_spec, utf8_lossy,
};
use vstd::prelude::*;
use vstd::slice::slice_subrange;

verus! {

/// A rating as a mathematical integer, for stating results.
pub open spec fn rating_view(r: Option<i32>) -> Option<int> {
    match r {
        Some(v) => Some(v as int),
        None => None,
    }
}

/// The stars that a piece of text denotes: a decimal integer, surrounded by
/// optional whitespace, confined to 0 through 5.
pub open spec fn stars_in(raw: Seq<char>) -> Option<int> {
    match parse_i32_spec(trim_spec(raw)) {
        Some(v) => Some(clamp_stars(v)),
        None => None,
    }
}

/// The rating given in attribute form, `xmp:Rating="3"`: the first
/// `xmp:Rating` is followed, whitespace aside, by `=` and then by a value in
/// single or double quotes. Where anything else follows the name, as the `>`
/// of an element does, there is no attribute and no rating in this form.
pub open spec fn attribute_rating(xmp: Seq<char>) -> Option<int> {
    match find_spec(xmp, "xmp:Rating"@) {
        None => None,
        Some(index) => {
            let tail = trim_start_spec(xmp.skip(index + "xmp:Rating"@.len()));
            if tail.len() > 0 && tail[0] == '=' {
                let after = trim_start_spec(tail.skip(1));
                if after.len() > 0 && (after[0] == '\'' || after[0] == '"') {
                    match find_char_spec(after.skip(1), after[0]) {
                        None => None,
                        Some(close) => stars_in(after.subrange(1, 1 + close)),
                    }
                } else {
                    None
                }
            } else {
                None
            }
        },
    }
}

/// The rating given in element form, `<xmp:Rating>3</xmp:Rating>`: the text
/// between the first opening tag and the first closing tag after it.
pub open spec fn element_rating(xmp: Seq<char>) -> Option<int> {
    match find_spec(xmp, "<xmp:Rating>"@) {
        None => None,
        Some(open) => {
            let tail = xmp.skip(open + "<xmp:Rating>"@.len());
            match find_spec(tail, "</xmp:Rating>"@) {
                None => None,
                Some(close) => stars_in(tail.take(close)),
            }
        },
    }
}

/// The rating of an XMP packet: the attribute form where it yields a
/// rating, else the element form.
pub open spec fn xmp_rating(xmp: Seq<char>) -> Option<int> {
    match attribute_rating(xmp) {
        Some(v) => Some(v),
        None => element_rating(xmp),
    }
}

/// The XMP packet embedded in a text: from the first `<x:xmpmeta` through
/// the first `</x:xmpmeta>`, provided that the closing tag comes later.
pub open spec fn xmp_packet(text: Seq<char>) -> Option<Seq<char>> {
    match (find_spec(text, "<x:xmpmeta"@), find_spec(text, "</x:xmpmeta>"@)) {
        (Some(start), Some(end)) => if end > start {
            Some(text.subrange(start, end + "</x:xmpmeta>"@.len()))
        } else {
            None
        },
        _ => None,
    }
}

/// The rating of the XMP packet embedded in a text, if there is a packet
/// and it holds a rating.
pub open spec fn embedded_rating(text: Seq<char>) -> Option<int> {
    match xmp_packet(text) {
        Some(packet) => xmp_rating(packet),
        None => None,
    }
}

/// A rating is always within 0 through 5.
pub proof fn lemma_xmp_rating_in_range(xmp: Seq<char>)
    ensures
        xmp_rating(xmp) matches Some(v) ==> 0 <= v <= 5,
{
}

/// The rating of an embedded packet is always within 0 through 5.
pub proof fn lemma_embedded_rating_in_range(text: Seq<char>)
    ensures
        embedded_rating(text) matches Some(v) ==> 0 <= v <= 5,
{
    if let Some(packet) = xmp_packet(text) {
        lemma_xmp_rating_in_range(packet);
    }
}

fn stars(raw: &[char]) -> (r: Option<i32>)
    ensures
        rating_view(r) == stars_in(raw@),
{
    match parse_i32(trim(raw)) {
        Some(v) => Some(clamp_rating(v)),
        None => None,
    }
}

fn attribute_form(xmp: &[char]) -> (r: Option<i32>)
    ensures
        rating_view(r) == attribute_rating(xmp@),
{
    let key = chars_of("xmp:Rating");
    let index = match find(xmp, key.as_slice()) {
        Some(i) => i,
        None => {
            return None;
        },
    };
    let tail = trim_start(slice_subrange(xmp, index + key.len(), xmp.len()));
    if tail.len() == 0 || tail[0] != '=' {
        return None;
    }
    let after = trim_start(slice_subrange(tail, 1, tail.len()));
    if after.len() == 0 {
        return None;
    }
    let quote = after[0];
    if quote != '\'' && quote != '"' {
        return None;
    }
    let rest = slice_subrange(after, 1, after.len());
    match find_char(rest, quote) {
        Some(close) => {
            proof {
                assert(rest@.subrange(0, close as int) =~= after@.subrange(1, 1 + close));
            }
            stars(slice_subrange(rest, 0, close))
        },
        None => None,
    }
}

fn element_form(xmp: &[char]) -> (r: Option<i32>)
    ensures
        rating_view(r) == element_rating(xmp@),
{
    let open_tag = chars_of("<xmp:Rating>");
    let close_tag = chars_of("</xmp:Rating>");
    let open = match find(xmp, open_tag.as_slice()) {
        Some(i) => i,
        None => {
            return None;
        },
    };
    let tail = slice_subrange(xmp, open + open_tag.len(), xmp.len());
    match find(tail, close_tag.as_slice()) {
        Some(close) => {
            stars(slice_subrange(tail, 0, close))
        },
        None => None,
    }
}

/// Reads the rating out of an XMP packet: the attribute form
/// `xmp:Rating="3"` first, then the element form
/// `<xmp:Rating>3</xmp:Rating>`. The value is confined to 0 through 5.
pub fn parse_xmp_rating(xmp: &str) -> (r: Option<i32>)
    ensures
        rating_view(r) == xmp_rating(xmp@),
        r matches Some(v) ==> 0 <= v <= 5,
{
    let chars = chars_of(xmp);
    match attribute_form(chars.as_slice()) {
        Some(v) => Some(v),
        None => element_form(chars.as_slice()),
    }
}

/// Finds the XMP packet embedded in a text and reads its rating.
pub fn extract_xmp_rating(text: &str) -> (r: Option<i32>)
    ensures
        rating_view(r) == embedded_rating(text@),
        r matches Some(v) ==> 0 <= v <= 5,
{
    let chars = chars_of(text);
    let open_tag = chars_of("<x:xmpmeta");
    let close_tag = chars_of("</x:xmpmeta>");
    let start = find(chars.as_slice(), open_tag.as_slice());
    let end = find(chars.as_slice(), close_tag.as_slice());
    match (start, end) {
        (Some(s), Some(e)) => {
            if e > s {
                let packet = slice_subrange(chars.as_slice(), s, e + close_tag.len());
                match attribute_form(packet) {
                    Some(v) => Some(v),
                    None => element_form(packet),
                }
            } else {
                None
            }
        },
        _ => None,
    }
}

/// Reads the rating of the XMP packet embedded in a file's bytes. Bytes that
/// are not valid UTF-8 are read leniently, as `utf8_lossy` gives them.
pub fn extract_xmp_rating_from_bytes(data: &[u8]) -> (r: Option<i32>)
    ensures
        rating_view(r) == embedded_rating(utf8_lossy(data@)),
        r matches Some(v) ==> 0 <= v <= 5,
{
    let text = decode_lossy(data);
    extract_xmp_rating(text.as_str())
}

} // verus!
