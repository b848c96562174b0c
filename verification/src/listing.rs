//! Directory listings: what is shown of each entry, whether its cached
//! record is stale, and the order of the entries.
//!
//! A listing never reads a file. It joins the live size and time of each
//! file with whatever record the cache holds and flags the file for a later
//! scan where that record is missing or stale.

use crate::cache::{texts, FileMeta, FileMetaView};
use crate::freshness::{freshness_of, needs_scan, Freshness};
use crate::metadata::{text_view, GpsAngle};
use crate::text::{chars_of, lowercase, to_lower};
use vstd::prelude::*;
use vstd::seq_lib::{to_multiset_build, to_multiset_contains, to_multiset_insert};

verus! {

// ---------------------------------------------------------------------------
// Entries
// ---------------------------------------------------------------------------

#[derive(Clone, Copy, Debug, PartialEq, Eq, Structural)]
/// Whether an entry of a listing is a directory or a file.
pub enum EntryKind {
    Dir,
    File,
}

impl EntryKind {
    /// The word that names the kind in a listing.
    pub fn as_str(self) -> (s: &'static str)
        ensures
            s@ == match self {
                EntryKind::Dir => "dir"@,
                EntryKind::File => "file"@,
            },
    {
        match self {
            EntryKind::Dir => "dir",
            EntryKind::File => "file",
        }
    }
}

/// One entry of a listing.
#[derive(Clone, Debug, PartialEq, Eq)]
pub struct BrowseEntry {
    pub name: String,
    pub path: String,
    pub kind: EntryKind,
    pub size: Option<i64>,
    pub modified: Option<i64>,
    pub camera_rating: Option<i32>,
    pub user_rating: Option<i32>,
    pub tags: Vec<String>,
    pub gps_lat: Option<GpsAngle>,
    pub gps_lon: Option<GpsAngle>,
    pub taken_at: Option<String>,
    pub orientation: Option<i32>,
    /// The cached record is missing or stale; the file is to be scanned
    /// when its details are asked for.
    pub needs_scan: bool,
    /// The name in lowercase, by which entries are ordered.
    pub sort_key: String,
}

/// `BrowseEntry` as mathematical values.
pub struct BrowseEntryView {
    pub name: Seq<char>,
    pub path: Seq<char>,
    pub kind: EntryKind,
    pub size: Option<i64>,
    pub modified: Option<i64>,
    pub camera_rating: Option<i32>,
    pub user_rating: Option<i32>,
    pub tags: Seq<Seq<char>>,
    pub gps_lat: Option<GpsAngle>,
    pub gps_lon: Option<GpsAngle>,
    pub taken_at: Option<Seq<char>>,
    pub orientation: Option<i32>,
    pub needs_scan: bool,
    pub sort_key: Seq<char>,
}

impl View for BrowseEntry {
    type V = BrowseEntryView;

    open spec fn view(&self) -> BrowseEntryView {
        BrowseEntryView {
            name: self.name@,
            path: self.path@,
            kind: self.kind,
            size: self.size,
            modified: self.modified,
            camera_rating: self.camera_rating,
            user_rating: self.user_rating,
            tags: texts(self.tags@),
            gps_lat: self.gps_lat,
            gps_lon: self.gps_lon,
            taken_at: text_view(self.taken_at),
            orientation: self.orientation,
            needs_scan: self.needs_scan,
            sort_key: self.sort_key@,
        }
    }
}

/// The entry of a directory: a name and a path, nothing else.
pub open spec fn dir_listing(name: Seq<char>, path: Seq<char>) -> BrowseEntryView {
    BrowseEntryView {
        name,
        path,
        kind: EntryKind::Dir,
        size: None,
        modified: None,
        camera_rating: None,
        user_rating: None,
        tags: Seq::empty(),
        gps_lat: None,
        gps_lon: None,
        taken_at: None,
        orientation: None,
        needs_scan: false,
        sort_key: lowercase(name),
    }
}

/// The entry of a file: its live size and time, the fields of its cached
/// record as far as there is one, and the flag that asks for a scan unless
/// that record is fresh.
pub open spec fn file_listing(
    name: Seq<char>,
    path: Seq<char>,
    size: i64,
    modified: i64,
    cached: Option<FileMetaView>,
) -> BrowseEntryView {
    BrowseEntryView {
        name,
        path,
        kind: EntryKind::File,
        size: Some(size),
        modified: Some(modified),
        camera_rating: match cached {
            Some(r) => r.camera_rating,
            None => None,
        },
        user_rating: match cached {
            Some(r) => r.user_rating,
            None => None,
        },
        tags: match cached {
            Some(r) => r.tags,
            None => Seq::empty(),
        },
        gps_lat: match cached {
            Some(r) => r.gps_lat,
            None => None,
        },
        gps_lon: match cached {
            Some(r) => r.gps_lon,
            None => None,
        },
        taken_at: match cached {
            Some(r) => r.taken_at,
            None => None,
        },
        orientation: match cached {
            Some(r) => r.orientation,
            None => None,
        },
        needs_scan: freshness_of(cached, size, modified) != Freshness::Fresh,
        sort_key: lowercase(name),
    }
}

/// Makes the entry of a directory.
pub fn dir_entry(name: String, path: String) -> (entry: BrowseEntry)
    ensures
        entry@ == dir_listing(name@, path@),
{
    let sort_key = to_lower(name.as_str());
    proof {
        assert(texts(Seq::<String>::empty()) =~= Seq::<Seq<char>>::empty());
    }
    BrowseEntry {
        name,
        path,
        kind: EntryKind::Dir,
        size: None,
        modified: None,
        camera_rating: None,
        user_rating: None,
        tags: Vec::new(),
        gps_lat: None,
        gps_lon: None,
        taken_at: None,
        orientation: None,
        needs_scan: false,
        sort_key,
    }
}

/// Makes the entry of a file from its live size and modification time and
/// from its cached record, if it has one.
pub fn file_entry(name: String, path: String, size: i64, modified: i64, cached: Option<FileMeta>)
    -> (entry: BrowseEntry)
    ensures
        entry@ == file_listing(
            name@,
            path@,
            size,
            modified,
            match cached {
                Some(meta) => Some(meta@),
                None => None,
            },
        ),
{
    let sort_key = to_lower(name.as_str());
    match cached {
        Some(meta) => {
            let stale = needs_scan(Some(&meta), size, modified);
            BrowseEntry {
                name,
                path,
                kind: EntryKind::File,
                size: Some(size),
                modified: Some(modified),
                camera_rating: meta.camera_rating,
                user_rating: meta.user_rating,
                tags: meta.tags,
                gps_lat: meta.gps_lat,
                gps_lon: meta.gps_lon,
                taken_at: meta.taken_at,
                orientation: meta.orientation,
                needs_scan: stale,
                sort_key,
            }
        },
        None => {
            proof {
                assert(texts(Seq::<String>::empty()) =~= Seq::<Seq<char>>::empty());
            }
            BrowseEntry {
                name,
                path,
                kind: EntryKind::File,
                size: Some(size),
                modified: Some(modified),
                camera_rating: None,
                user_rating: None,
                tags: Vec::new(),
                gps_lat: None,
                gps_lon: None,
                taken_at: None,
                orientation: None,
                needs_scan: true,
                sort_key,
            }
        },
    }
}

/// The modification time of a file in whole seconds since the epoch, as a
/// signed number; 0 where the time is unknown or lies before the epoch.
pub open spec fn unix_seconds(since_epoch: Option<u64>) -> int {
    match since_epoch {
        Some(secs) => if secs <= i64::MAX {
            secs as int
        } else {
            secs - 0x1_0000_0000_0000_0000
        },
        None => 0,
    }
}

/// Turns the seconds that a file time lies after the epoch into the signed
/// number that records hold. `None` stands for a time that is unknown or
/// before the epoch.
pub fn to_unix_seconds(since_epoch: Option<u64>) -> (secs: i64)
    ensures
        secs == unix_seconds(since_epoch),
{
    match since_epoch {
        Some(secs) => if secs <= 0x7FFF_FFFF_FFFF_FFFF {
            secs as i64
        } else {
            (secs as i128 - 0x1_0000_0000_0000_0000) as i64
        },
        None => 0,
    }
}

// ---------------------------------------------------------------------------
// Order
// ---------------------------------------------------------------------------

/// `a` does not come after `b`, character by character; where one text
/// opens the other, the shorter comes first.
pub open spec fn text_le(a: Seq<char>, b: Seq<char>) -> bool
    decreases a.len(),
{
    if a.len() == 0 {
        true
    } else if b.len() == 0 {
        false
    } else if a[0] == b[0] {
        text_le(a.skip(1), b.skip(1))
    } else {
        a[0] < b[0]
    }
}

/// Of two texts, one does not come after the other.
pub proof fn lemma_text_le_total(a: Seq<char>, b: Seq<char>)
    ensures
        text_le(a, b) || text_le(b, a),
    decreases a.len(),
{
    if a.len() > 0 && b.len() > 0 && a[0] == b[0] {
        lemma_text_le_total(a.skip(1), b.skip(1));
    }
}

/// The order of texts is transitive.
pub proof fn lemma_text_le_transitive(a: Seq<char>, b: Seq<char>, c: Seq<char>)
    requires
        text_le(a, b),
        text_le(b, c),
    ensures
        text_le(a, c),
    decreases a.len(),
{
    if a.len() > 0 && b.len() > 0 && c.len() > 0 && a[0] == b[0] && b[0] == c[0] {
        lemma_text_le_transitive(a.skip(1), b.skip(1), c.skip(1));
    }
}

/// Tells whether `a` does not come after `b`.
pub fn text_not_after(a: &[char], b: &[char]) -> (r: bool)
    ensures
        r == text_le(a@, b@),
{
    let mut i: usize = 0;
    proof {
        assert(a@.skip(0) =~= a@);
        assert(b@.skip(0) =~= b@);
    }
    while i < a.len() && i < b.len()
        invariant
            i <= a.len(),
            i <= b.len(),
            text_le(a@, b@) == text_le(a@.skip(i as int), b@.skip(i as int)),
        decreases a.len() - i,
    {
        proof {
            assert(a@.skip(i as int)[0] == a@[i as int]);
            assert(b@.skip(i as int)[0] == b@[i as int]);
            assert(a@.skip(i as int).skip(1) =~= a@.skip(i + 1));
            assert(b@.skip(i as int).skip(1) =~= b@.skip(i + 1));
        }
        if a[i] != b[i] {
            return a[i] < b[i];
        }
        i = i + 1;
    }
    i == a.len()
}

/// `a` does not come after `b` in a listing: directories come before
/// files, and within a kind the lowercase names decide.
pub open spec fn entry_le(a: BrowseEntry, b: BrowseEntry) -> bool {
    if a.kind == b.kind {
        text_le(a.sort_key@, b.sort_key@)
    } else {
        a.kind == EntryKind::Dir
    }
}

/// Of two entries, one does not come after the other.
pub proof fn lemma_entry_le_total(a: BrowseEntry, b: BrowseEntry)
    ensures
        entry_le(a, b) || entry_le(b, a),
{
    lemma_text_le_total(a.sort_key@, b.sort_key@);
}

/// The order of entries is transitive.
pub proof fn lemma_entry_le_transitive(a: BrowseEntry, b: BrowseEntry, c: BrowseEntry)
    requires
        entry_le(a, b),
        entry_le(b, c),
    ensures
        entry_le(a, c),
{
    if a.kind == b.kind && b.kind == c.kind {
        lemma_text_le_transitive(a.sort_key@, b.sort_key@, c.sort_key@);
    }
}

fn not_after(a: &BrowseEntry, b: &BrowseEntry) -> (r: bool)
    ensures
        r == entry_le(*a, *b),
{
    match (a.kind, b.kind) {
        (EntryKind::Dir, EntryKind::File) => true,
        (EntryKind::File, EntryKind::Dir) => false,
        _ => {
            let ka = chars_of(a.sort_key.as_str());
            let kb = chars_of(b.sort_key.as_str());
            text_not_after(ka.as_slice(), kb.as_slice())
        },
    }
}

/// Where an entry goes into an ordered listing: after the last entry that
/// does not come after it.
pub open spec fn insertion_point(ordered: Seq<BrowseEntry>, entry: BrowseEntry) -> int
    decreases ordered.len(),
{
    if ordered.len() == 0 {
        0
    } else if entry_le(ordered.last(), entry) {
        ordered.len() as int
    } else {
        insertion_point(ordered.drop_last(), entry)
    }
}

/// The entries in the order of a listing. Entries that the order does not
/// tell apart stay in the order in which they were given.
pub open spec fn listing_order(entries: Seq<BrowseEntry>) -> Seq<BrowseEntry>
    decreases entries.len(),
{
    if entries.len() == 0 {
        Seq::empty()
    } else {
        let before = listing_order(entries.drop_last());
        before.insert(insertion_point(before, entries.last()), entries.last())
    }
}

/// No entry of the sequence comes after a later one.
pub open spec fn in_order(entries: Seq<BrowseEntry>) -> bool {
    forall|i: int, j: int| 0 <= i < j < entries.len() ==> entry_le(entries[i], entries[j])
}

/// The insertion point lies within the listing, just after an entry that
/// does not come after the new one, and before every entry that does.
pub proof fn lemma_insertion_point(ordered: Seq<BrowseEntry>, entry: BrowseEntry)
    ensures
        0 <= insertion_point(ordered, entry) <= ordered.len(),
        insertion_point(ordered, entry) > 0 ==> entry_le(
            ordered[insertion_point(ordered, entry) - 1],
            entry,
        ),
        forall|j: int|
            insertion_point(ordered, entry) <= j < ordered.len() ==> !entry_le(
                #[trigger] ordered[j],
                entry,
            ),
    decreases ordered.len(),
{
    if ordered.len() > 0 && !entry_le(ordered.last(), entry) {
        lemma_insertion_point(ordered.drop_last(), entry);
        let p = insertion_point(ordered, entry);
        assert forall|j: int| p <= j < ordered.len() implies !entry_le(
            #[trigger] ordered[j],
            entry,
        ) by {
            if j < ordered.len() - 1 {
                assert(ordered.drop_last()[j] == ordered[j]);
            }
        }
        if p > 0 {
            assert(ordered.drop_last()[p - 1] == ordered[p - 1]);
        }
    }
}

/// The order of a listing has the same length as the entries given.
pub proof fn lemma_listing_len(entries: Seq<BrowseEntry>)
    ensures
        listing_order(entries).len() == entries.len(),
    decreases entries.len(),
{
    if entries.len() > 0 {
        lemma_listing_len(entries.drop_last());
        lemma_insertion_point(listing_order(entries.drop_last()), entries.last());
    }
}

/// In the order of a listing no entry comes after a later one.
pub proof fn lemma_listing_in_order(entries: Seq<BrowseEntry>)
    ensures
        in_order(listing_order(entries)),
    decreases entries.len(),
{
    if entries.len() > 0 {
        let before = listing_order(entries.drop_last());
        let entry = entries.last();
        let p = insertion_point(before, entry);
        lemma_listing_in_order(entries.drop_last());
        lemma_insertion_point(before, entry);
        let after = before.insert(p, entry);
        assert forall|i: int, j: int| 0 <= i < j < after.len() implies entry_le(
            after[i],
            after[j],
        ) by {
            if j < p {
                assert(entry_le(before[i], before[j]));
            } else if j == p {
                if i < p - 1 {
                    assert(entry_le(before[i], before[p - 1]));
                    lemma_entry_le_transitive(before[i], before[p - 1], entry);
                }
            } else if i < p {
                assert(entry_le(before[i], before[j - 1]));
            } else if i == p {
                lemma_entry_le_total(before[j - 1], entry);
            } else {
                assert(entry_le(before[i - 1], before[j - 1]));
            }
        }
    }
}

/// The order of a listing holds exactly the entries given, each as often
/// as it was given.
pub proof fn lemma_listing_is_rearrangement(entries: Seq<BrowseEntry>)
    ensures
        listing_order(entries).to_multiset() == entries.to_multiset(),
    decreases entries.len(),
{
    if entries.len() > 0 {
        let init = entries.drop_last();
        let before = listing_order(init);
        let entry = entries.last();
        lemma_listing_is_rearrangement(init);
        lemma_insertion_point(before, entry);
        to_multiset_insert(before, insertion_point(before, entry), entry);
        to_multiset_build(init, entry);
        assert(init.push(entry) =~= entries);
    } else {
        assert(listing_order(entries) =~= entries);
    }
}

/// The key of every entry is its name in lowercase, as `dir_entry` and
/// `file_entry` make it.
pub open spec fn keyed_by_name(entries: Seq<BrowseEntry>) -> bool {
    forall|i: int|
        0 <= i < entries.len() ==> (#[trigger] entries[i]).sort_key@ == lowercase(entries[i].name@)
}

/// `a` does not come after `b` by name: directories come before files, and
/// within a kind the names in lowercase decide.
pub open spec fn name_le(a: BrowseEntry, b: BrowseEntry) -> bool {
    if a.kind == b.kind {
        text_le(lowercase(a.name@), lowercase(b.name@))
    } else {
        a.kind == EntryKind::Dir
    }
}

/// No entry of the sequence comes after a later one by name.
pub open spec fn in_name_order(entries: Seq<BrowseEntry>) -> bool {
    forall|i: int, j: int| 0 <= i < j < entries.len() ==> name_le(entries[i], entries[j])
}

/// Where every key is the name in lowercase, the order of a listing is the
/// order of the lowercase names, directories first.
pub proof fn lemma_listing_in_name_order(entries: Seq<BrowseEntry>)
    requires
        keyed_by_name(entries),
    ensures
        keyed_by_name(listing_order(entries)),
        in_name_order(listing_order(entries)),
{
    let listed = listing_order(entries);
    lemma_listing_in_order(entries);
    lemma_listing_is_rearrangement(entries);
    assert forall|i: int| 0 <= i < listed.len() implies (#[trigger] listed[i]).sort_key@
        == lowercase(listed[i].name@) by {
        let e = listed[i];
        assert(listed.contains(e));
        to_multiset_contains(listed, e);
        to_multiset_contains(entries, e);
        let k = choose|k: int| 0 <= k < entries.len() && entries[k] == e;
        assert(entries[k].sort_key@ == lowercase(entries[k].name@));
    }
    assert forall|i: int, j: int| 0 <= i < j < listed.len() implies name_le(
        listed[i],
        listed[j],
    ) by {
        assert(entry_le(listed[i], listed[j]));
    }
}

/// Puts the entries of a listing in order: directories first, then files,
/// each kind by lowercase name. The names in lowercase are read from the
/// keys of the entries; for entries whose keys are that, the result is in
/// the order of the names.
pub fn sort_entries(entries: &mut Vec<BrowseEntry>)
    ensures
        final(entries)@ == listing_order(old(entries)@),
        in_order(final(entries)@),
        final(entries)@.to_multiset() == old(entries)@.to_multiset(),
        keyed_by_name(old(entries)@) ==> keyed_by_name(final(entries)@) && in_name_order(
            final(entries)@,
        ),
{
    let count = entries.len();
    let mut i: usize = 0;
    proof {
        assert(old(entries)@.take(0) =~= Seq::<BrowseEntry>::empty());
        assert(old(entries)@.skip(0) =~= old(entries)@);
        assert(Seq::<BrowseEntry>::empty() + old(entries)@ =~= old(entries)@);
    }
    while i < count
        invariant
            i <= count,
            count == old(entries)@.len(),
            entries@.len() == count,
            entries@ == listing_order(old(entries)@.take(i as int)) + old(entries)@.skip(i as int),
            listing_order(old(entries)@.take(i as int)).len() == i,
        decreases count - i,
    {
        let ghost ordered = listing_order(old(entries)@.take(i as int));
        let ghost rest = old(entries)@.skip(i as int);
        let entry = entries.remove(i);
        proof {
            assert(entry == old(entries)@[i as int]);
            assert(entries@ =~= ordered + rest.skip(1));
        }
        let mut at: usize = i;
        proof {
            assert(ordered.take(i as int) =~= ordered);
        }
        while at > 0 && !not_after(&entries[at - 1], &entry)
            invariant
                at <= i,
                ordered.len() == i,
                i < count,
                entries@.len() == count - 1,
                entries@ == ordered + rest.skip(1),
                insertion_point(ordered, entry) == insertion_point(ordered.take(at as int), entry),
            decreases at,
        {
            proof {
                assert(ordered.take(at as int).last() == entries@[at - 1]);
                assert(ordered.take(at as int).drop_last() =~= ordered.take(at - 1));
            }
            at = at - 1;
        }
        proof {
            if at > 0 {
                assert(ordered.take(at as int).last() == entries@[at - 1]);
            }
            assert(old(entries)@.take(i + 1).drop_last() =~= old(entries)@.take(i as int));
            assert(old(entries)@.take(i + 1).last() == entry);
            lemma_listing_len(old(entries)@.take(i + 1));
        }
        entries.insert(at, entry);
        proof {
            assert(entries@ =~= listing_order(old(entries)@.take(i + 1)) + old(entries)@.skip(
                i + 1,
            ));
        }
        i = i + 1;
    }
    proof {
        assert(old(entries)@.take(count as int) =~= old(entries)@);
        assert(entries@ =~= listing_order(old(entries)@));
        lemma_listing_in_order(old(entries)@);
        lemma_listing_is_rearrangement(old(entries)@);
        if keyed_by_name(old(entries)@) {
            lemma_listing_in_name_order(old(entries)@);
        }
    }
}

} // verus!
