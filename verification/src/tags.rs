//! User tags: an ordered list without repeats, where letter case does not
//! tell two tags apart; and the form in which the list is persisted.

use crate::cache::texts;
use crate::metadata::text_view;
use crate::text::{chars_of, lowercase, string_of, to_lower, trim, trim_spec};
use vstd::prelude::*;
use vstd::string::StrSliceExecFns;

verus! {

// ---------------------------------------------------------------------------
// Normalizing an edit
// ---------------------------------------------------------------------------

/// A tag together with the key under which it is compared with others.
pub type KeyedTag = (Seq<char>, Seq<char>);

/// Some tag of the list has the given key.
pub open spec fn has_key(list: Seq<KeyedTag>, key: Seq<char>) -> bool {
    exists|j: int| 0 <= j < list.len() && (#[trigger] list[j]).1 == key
}

/// Of the tags that share a key, the first; tags that are empty are left
/// out. The order of the list is kept.
pub open spec fn first_of_each_key(list: Seq<KeyedTag>) -> Seq<KeyedTag>
    decreases list.len(),
{
    if list.len() == 0 {
        Seq::empty()
    } else {
        let before = first_of_each_key(list.drop_last());
        let last = list.last();
        if last.0.len() == 0 || has_key(before, last.1) {
            before
        } else {
            before.push(last)
        }
    }
}

/// The tags of a list of keyed tags.
pub open spec fn tags_of(list: Seq<KeyedTag>) -> Seq<Seq<char>> {
    Seq::new(list.len(), |i: int| list[i].0)
}

/// Each tag of an edit without surrounding whitespace, keyed by its
/// lowercase form.
pub open spec fn keyed(tags: Seq<Seq<char>>) -> Seq<KeyedTag> {
    Seq::new(tags.len(), |i: int| (trim_spec(tags[i]), lowercase(trim_spec(tags[i]))))
}

/// The tags that an edit leaves: each tag without surrounding whitespace,
/// empty ones dropped, and of tags that differ in letter case only, the
/// first. The order of the edit is kept.
pub open spec fn normalized(tags: Seq<Seq<char>>) -> Seq<Seq<char>> {
    tags_of(first_of_each_key(keyed(tags)))
}

/// What is kept holds no empty tag and no key twice, and every entry of it
/// stood in the list.
pub proof fn lemma_first_of_each_key(list: Seq<KeyedTag>)
    ensures
        forall|i: int|
            0 <= i < first_of_each_key(list).len() ==> (#[trigger] first_of_each_key(
                list,
            )[i]).0.len() > 0 && list.contains(first_of_each_key(list)[i]),
        forall|i: int, j: int|
            0 <= i < j < first_of_each_key(list).len() ==> (#[trigger] first_of_each_key(
                list,
            )[i]).1 != (#[trigger] first_of_each_key(list)[j]).1,
        forall|i: int|
            0 <= i < list.len() && (#[trigger] list[i]).0.len() > 0 ==> has_key(
                first_of_each_key(list),
                list[i].1,
            ),
    decreases list.len(),
{
    if list.len() > 0 {
        let init = list.drop_last();
        let before = first_of_each_key(init);
        let last = list.last();
        let after = first_of_each_key(list);
        lemma_first_of_each_key(init);
        let added = !(last.0.len() == 0 || has_key(before, last.1));
        assert forall|i: int| 0 <= i < after.len() implies (#[trigger] after[i]).0.len() > 0
            && list.contains(after[i]) by {
            if i < before.len() {
                assert(after[i] == before[i]);
                let k = choose|k: int| 0 <= k < init.len() && init[k] == before[i];
                assert(list[k] == before[i]);
            } else {
                assert(list[list.len() - 1] == last);
            }
        }
        assert forall|i: int, j: int| 0 <= i < j < after.len() implies (#[trigger] after[i]).1 != (
        #[trigger] after[j]).1 by {
            if j < before.len() {
                assert(after[i] == before[i] && after[j] == before[j]);
            } else {
                assert(after[i] == before[i]);
                if before[i].1 == last.1 {
                    assert(has_key(before, last.1));
                }
            }
        }
        assert forall|i: int| 0 <= i < list.len() && (#[trigger] list[i]).0.len() > 0 implies has_key(
            after,
            list[i].1,
        ) by {
            if i < init.len() {
                assert(init[i] == list[i]);
                let k = choose|k: int| 0 <= k < before.len() && (#[trigger] before[k]).1 == list[i].1;
                if added {
                    assert(after[k] == before[k]);
                }
            } else if added {
                assert(after[before.len() as int] == last);
            } else {
                let k = choose|k: int| 0 <= k < before.len() && (#[trigger] before[k]).1 == last.1;
                assert(after[k].1 == list[i].1);
            }
        }
    }
}

/// A normalized list holds no empty tag and no two tags that are equal
/// when letter case is set aside; and every tag of the edit that is not
/// blank is represented in it.
pub proof fn lemma_normalized_is_set(tags: Seq<Seq<char>>)
    ensures
        forall|i: int| 0 <= i < normalized(tags).len() ==> (#[trigger] normalized(tags)[i]).len() > 0,
        forall|i: int, j: int|
            0 <= i < j < normalized(tags).len() ==> lowercase(#[trigger] normalized(tags)[i])
                != lowercase(#[trigger] normalized(tags)[j]),
        forall|i: int|
            0 <= i < tags.len() && trim_spec(#[trigger] tags[i]).len() > 0 ==> exists|j: int|
                0 <= j < normalized(tags).len() && lowercase(#[trigger] normalized(tags)[j])
                    == lowercase(trim_spec(tags[i])),
{
    let list = keyed(tags);
    let kept = first_of_each_key(list);
    lemma_first_of_each_key(list);
    assert forall|i: int| 0 <= i < kept.len() implies (#[trigger] kept[i]).1 == lowercase(
        kept[i].0,
    ) by {
        let k = choose|k: int| 0 <= k < list.len() && list[k] == kept[i];
        assert(list[k].1 == lowercase(list[k].0));
    }
    assert forall|i: int, j: int| 0 <= i < j < normalized(tags).len() implies lowercase(
        #[trigger] normalized(tags)[i],
    ) != lowercase(#[trigger] normalized(tags)[j]) by {
        assert(kept[i].1 != kept[j].1);
    }
    assert forall|i: int| 0 <= i < normalized(tags).len() implies (#[trigger] normalized(
        tags,
    )[i]).len() > 0 by {
        assert(kept[i].0.len() > 0);
    }
    assert forall|i: int| 0 <= i < tags.len() && trim_spec(#[trigger] tags[i]).len() > 0 implies exists|
        j: int,
    |
        0 <= j < normalized(tags).len() && lowercase(#[trigger] normalized(tags)[j]) == lowercase(
            trim_spec(tags[i]),
        ) by {
        assert(list[i].0.len() > 0);
        let j = choose|j: int| 0 <= j < kept.len() && (#[trigger] kept[j]).1 == list[i].1;
        assert(lowercase(normalized(tags)[j]) == kept[j].1);
    }
}

fn contains_text(list: &Vec<String>, text: &String) -> (b: bool)
    ensures
        b == exists|j: int| 0 <= j < list@.len() && (#[trigger] list@[j])@ == text@,
{
    let mut i: usize = 0;
    while i < list.len()
        invariant
            i <= list.len(),
            forall|j: int| 0 <= j < i ==> (#[trigger] list@[j])@ != text@,
        decreases list.len() - i,
    {
        if list[i] == *text {
            return true;
        }
        i = i + 1;
    }
    false
}

/// The texts of a list of tags with their keys.
pub open spec fn keyed_view(list: Seq<(String, String)>) -> Seq<KeyedTag> {
    Seq::new(list.len(), |i: int| (list[i].0@, list[i].1@))
}

/// Keeps, of the tags that share a key, the first, and leaves out tags that
/// are empty. Each entry of the list is a tag and its key.
pub fn unique_by_key(list: Vec<(String, String)>) -> (out: Vec<String>)
    ensures
        texts(out@) == tags_of(first_of_each_key(keyed_view(list@))),
{
    let ghost all = keyed_view(list@);
    let mut out: Vec<String> = Vec::new();
    let mut seen: Vec<String> = Vec::new();
    let ghost mut kept: Seq<KeyedTag> = Seq::empty();
    proof {
        assert(all.take(0) =~= Seq::<KeyedTag>::empty());
        assert(texts(out@) =~= tags_of(kept));
    }
    for pair in it: list
        invariant
            it.seq() == list@,
            all == keyed_view(list@),
            kept == first_of_each_key(all.take(it.index() as int)),
            texts(out@) == tags_of(kept),
            seen@.len() == kept.len(),
            forall|j: int| 0 <= j < kept.len() ==> (#[trigger] seen@[j])@ == kept[j].1,
    {
        let (tag, key) = pair;
        proof {
            assert(all.take(it.index() + 1).drop_last() =~= all.take(it.index() as int));
            assert(all.take(it.index() + 1).last() == (tag@, key@));
        }
        if tag.as_str().unicode_len() > 0 {
            let known = contains_text(&seen, &key);
            proof {
                if known {
                    let j = choose|j: int| 0 <= j < seen@.len() && (#[trigger] seen@[j])@ == key@;
                    assert(kept[j].1 == key@);
                }
                if has_key(kept, key@) {
                    let j = choose|j: int| 0 <= j < kept.len() && (#[trigger] kept[j]).1 == key@;
                    assert(seen@[j]@ == key@);
                }
            }
            if !known {
                proof {
                    let more = kept.push((tag@, key@));
                    assert(texts(out@).len() == tags_of(kept).len());
                    assert forall|j: int| 0 <= j < more.len() implies texts(out@.push(tag))[j]
                        == tags_of(more)[j] by {
                        if j < kept.len() {
                            assert(texts(out@)[j] == tags_of(kept)[j]);
                        }
                    }
                    assert(texts(out@.push(tag)) =~= tags_of(more));
                    kept = more;
                }
                out.push(tag);
                seen.push(key);
            }
        }
    }
    proof {
        assert(all.take(list@.len() as int) =~= all);
    }
    out
}

/// Normalizes the tags of an edit.
pub fn normalize_tags(tags: &Vec<String>) -> (out: Vec<String>)
    ensures
        texts(out@) == normalized(texts(tags@)),
{
    let mut list: Vec<(String, String)> = Vec::new();
    let mut i: usize = 0;
    while i < tags.len()
        invariant
            i <= tags.len(),
            list@.len() == i,
            forall|j: int|
                0 <= j < i ==> (#[trigger] list@[j]).0@ == trim_spec(tags@[j]@) && list@[j].1@
                    == lowercase(trim_spec(tags@[j]@)),
        decreases tags.len() - i,
    {
        let chars = chars_of(tags[i].as_str());
        let tag = string_of(trim(chars.as_slice()));
        let key = to_lower(tag.as_str());
        list.push((tag, key));
        i = i + 1;
    }
    proof {
        assert(keyed_view(list@) =~= keyed(texts(tags@)));
    }
    unique_by_key(list)
}

// ---------------------------------------------------------------------------
// The persisted form
// ---------------------------------------------------------------------------

/// The JSON text that `serde_json::to_string` writes for a list of
/// strings; `None` where it reports an error.
pub uninterp spec fn tags_json(tags: Seq<Seq<char>>) -> Option<Seq<char>>;

/// Writes a list of tags as JSON with `serde_json::to_string`. The text
/// depends on the tags alone and is named `tags_json`.
#[verifier::external_body]
fn write_json(tags: &Vec<String>) -> (r: Option<String>)
    ensures
        text_view(r) == tags_json(texts(tags@)),
{
    serde_json::to_string(tags).ok()
}

/// The list of strings that `serde_json::from_str` reads from a text;
/// `None` where it reports an error.
pub uninterp spec fn json_tags(raw: Seq<char>) -> Option<Seq<Seq<char>>>;

/// Reads a list of strings from JSON with `serde_json::from_str`. The list
/// depends on the text alone and is named `json_tags`.
#[verifier::external_body]
fn read_json(raw: &str) -> (r: Option<Vec<String>>)
    ensures
        match r {
            Some(list) => json_tags(raw@) == Some(texts(list@)),
            None => json_tags(raw@) is None,
        },
{
    serde_json::from_str(raw).ok()
}

/// The persisted form of a list of tags: a JSON array of strings, in the
/// order of the list.
pub fn encode_tags(tags: &Vec<String>) -> (r: Option<String>)
    ensures
        text_view(r) == tags_json(texts(tags@)),
{
    write_json(tags)
}

/// The tags that a persisted value stands for: the parsed list, and the
/// empty list where the value is absent or cannot be parsed.
pub open spec fn stored_tags(parsed: Option<Option<Seq<Seq<char>>>>) -> Seq<Seq<char>> {
    match parsed {
        Some(Some(list)) => list,
        _ => Seq::empty(),
    }
}

/// Turns the outcome of parsing a persisted value into tags: an absent
/// value (`None`) and an unparseable one (`Some(None)`) both give the empty
/// list.
pub fn tags_or_empty(parsed: Option<Option<Vec<String>>>) -> (tags: Vec<String>)
    ensures
        texts(tags@) == stored_tags(
            match parsed {
                Some(Some(list)) => Some(Some(texts(list@))),
                Some(None) => Some(None),
                None => None,
            },
        ),
{
    match parsed {
        Some(Some(list)) => list,
        _ => {
            proof {
                assert(texts(Seq::<String>::empty()) =~= Seq::<Seq<char>>::empty());
            }
            Vec::new()
        },
    }
}

/// Reads tags from their persisted form. An absent or unparseable value is
/// the empty list, never an error.
pub fn decode_tags(raw: Option<&str>) -> (tags: Vec<String>)
    ensures
        texts(tags@) == stored_tags(
            match raw {
                Some(text) => Some(json_tags(text@)),
                None => None,
            },
        ),
{
    match raw {
        Some(text) => tags_or_empty(Some(read_json(text))),
        None => tags_or_empty(None),
    }
}

} // verus!
