//! The metadata cache: one record per file path, holding what extraction
//! found together with the rating and tags that the user set.
//!
//! `MetaStore` keeps the records in memory and is viewed as a map from path
//! to record. Renames and deletions on disk are mirrored by rewriting or
//! dropping keys, so that a record follows its file.

use crate::metadata::{text_view, GpsAngle};
use crate::paths::{
    is_under, lemma_origin_is_under, lemma_origin_of_relocated, lemma_relocated_injective,
    lemma_relocated_is_under, lemma_sibling_is_not_under, lemma_unrelated_dirs_share_nothing,
    lies_under, origin, relocate, relocated, strip_slashes, trim_slashes,
};
use crate::text::{chars_of, same_text, string_of};
use vstd::prelude::*;
use vstd::string::StringExecFns;

verus! {

// ---------------------------------------------------------------------------
// Records
// ---------------------------------------------------------------------------

/// The cached record of one file.
///
/// `file_size` and `last_modified` are the size and modification time, in
/// seconds since the epoch, that the file had when the record was written.
#[derive(Clone, Debug, PartialEq, Eq)]
pub struct FileMeta {
    pub path: String,
    pub camera_rating: Option<i32>,
    pub user_rating: Option<i32>,
    pub tags: Vec<String>,
    pub gps_lat: Option<GpsAngle>,
    pub gps_lon: Option<GpsAngle>,
    pub taken_at: Option<String>,
    pub orientation: Option<i32>,
    pub file_size: i64,
    pub last_modified: i64,
}

/// `FileMeta` as mathematical values.
pub struct FileMetaView {
    pub path: Seq<char>,
    pub camera_rating: Option<i32>,
    pub user_rating: Option<i32>,
    pub tags: Seq<Seq<char>>,
    pub gps_lat: Option<GpsAngle>,
    pub gps_lon: Option<GpsAngle>,
    pub taken_at: Option<Seq<char>>,
    pub orientation: Option<i32>,
    pub file_size: i64,
    pub last_modified: i64,
}

/// The texts of a list of strings, in order.
pub open spec fn texts(list: Seq<String>) -> Seq<Seq<char>> {
    Seq::new(list.len(), |i: int| list[i]@)
}

impl View for FileMeta {
    type V = FileMetaView;

    open spec fn view(&self) -> FileMetaView {
        FileMetaView {
            path: self.path@,
            camera_rating: self.camera_rating,
            user_rating: self.user_rating,
            tags: texts(self.tags@),
            gps_lat: self.gps_lat,
            gps_lon: self.gps_lon,
            taken_at: text_view(self.taken_at),
            orientation: self.orientation,
            file_size: self.file_size,
            last_modified: self.last_modified,
        }
    }
}

/// Copies a list of strings.
pub fn copy_texts(list: &[String]) -> (copy: Vec<String>)
    ensures
        texts(copy@) == texts(list@),
{
    let mut copy: Vec<String> = Vec::new();
    let mut i: usize = 0;
    while i < list.len()
        invariant
            i <= list.len(),
            copy@.len() == i,
            forall|j: int| 0 <= j < i ==> copy@[j]@ == list@[j]@,
        decreases list.len() - i,
    {
        copy.push(list[i].clone());
        i = i + 1;
    }
    proof {
        assert(texts(copy@) =~= texts(list@));
    }
    copy
}

fn copy_text(text: &Option<String>) -> (copy: Option<String>)
    ensures
        text_view(copy) == text_view(*text),
{
    match text {
        Some(s) => Some(s.clone()),
        None => None,
    }
}

/// Copies a record.
pub fn copy_meta(meta: &FileMeta) -> (copy: FileMeta)
    ensures
        copy@ == meta@,
{
    FileMeta {
        path: meta.path.clone(),
        camera_rating: meta.camera_rating,
        user_rating: meta.user_rating,
        tags: copy_texts(meta.tags.as_slice()),
        gps_lat: meta.gps_lat,
        gps_lon: meta.gps_lon,
        taken_at: copy_text(&meta.taken_at),
        orientation: meta.orientation,
        file_size: meta.file_size,
        last_modified: meta.last_modified,
    }
}

// ---------------------------------------------------------------------------
// The cache as a map
// ---------------------------------------------------------------------------

/// The record that a rating or tag edit creates for a path that has none:
/// every extracted field is absent.
pub open spec fn new_record(
    path: Seq<char>,
    user_rating: Option<i32>,
    tags: Seq<Seq<char>>,
    file_size: i64,
    last_modified: i64,
) -> FileMetaView {
    FileMetaView {
        path,
        camera_rating: None,
        user_rating,
        tags,
        gps_lat: None,
        gps_lon: None,
        taken_at: None,
        orientation: None,
        file_size,
        last_modified,
    }
}

/// Every record of the cache is filed under its own path.
pub open spec fn keyed_by_path(cache: Map<Seq<char>, FileMetaView>) -> bool {
    forall|k: Seq<char>| #[trigger] cache.contains_key(k) ==> cache[k].path == k
}

/// The record of `path`, if there is one.
pub open spec fn lookup(cache: Map<Seq<char>, FileMetaView>, path: Seq<char>) -> Option<
    FileMetaView,
> {
    if cache.contains_key(path) {
        Some(cache[path])
    } else {
        None
    }
}

/// The cache after a full write of `record`: every field of the record for
/// that path is replaced.
pub open spec fn upserted(cache: Map<Seq<char>, FileMetaView>, record: FileMetaView) -> Map<
    Seq<char>,
    FileMetaView,
> {
    cache.insert(record.path, record)
}

/// The cache after a rating edit: the user rating and the freshness token
/// of the record change, nothing else; a path without a record gets a new
/// one without tags.
pub open spec fn rated(
    cache: Map<Seq<char>, FileMetaView>,
    path: Seq<char>,
    rating: Option<i32>,
    file_size: i64,
    last_modified: i64,
) -> Map<Seq<char>, FileMetaView> {
    if cache.contains_key(path) {
        cache.insert(
            path,
            FileMetaView { user_rating: rating, file_size, last_modified, ..cache[path] },
        )
    } else {
        cache.insert(path, new_record(path, rating, Seq::empty(), file_size, last_modified))
    }
}

/// The cache after a tag edit: the tags and the freshness token of the
/// record change, nothing else; a path without a record gets a new one
/// without a rating.
pub open spec fn retagged(
    cache: Map<Seq<char>, FileMetaView>,
    path: Seq<char>,
    tags: Seq<Seq<char>>,
    file_size: i64,
    last_modified: i64,
) -> Map<Seq<char>, FileMetaView> {
    if cache.contains_key(path) {
        cache.insert(path, FileMetaView { tags, file_size, last_modified, ..cache[path] })
    } else {
        cache.insert(path, new_record(path, None, tags, file_size, last_modified))
    }
}

/// `path` is the directory `dir` itself or lies under it.
pub open spec fn in_subtree(path: Seq<char>, dir: Seq<char>) -> bool {
    path == dir || is_under(path, dir)
}

/// The cache without the records of a subtree.
pub open spec fn without_subtree(cache: Map<Seq<char>, FileMetaView>, dir: Seq<char>) -> Map<
    Seq<char>,
    FileMetaView,
> {
    cache.remove_keys(Set::new(|k: Seq<char>| in_subtree(k, dir)))
}

/// The cache after the file `from` was renamed to `to`: its record, if it
/// has one, is kept whole under the new path.
pub open spec fn renamed(cache: Map<Seq<char>, FileMetaView>, from: Seq<char>, to: Seq<char>)
    -> Map<Seq<char>, FileMetaView> {
    if cache.contains_key(from) {
        cache.remove(from).insert(to, FileMetaView { path: to, ..cache[from] })
    } else {
        cache
    }
}

/// Renaming `from` to `to` would put two records under one path.
pub open spec fn rename_collides(
    cache: Map<Seq<char>, FileMetaView>,
    from: Seq<char>,
    to: Seq<char>,
) -> bool {
    cache.contains_key(from) && from != to && cache.contains_key(to)
}

/// A record arrives at `path` when the directory `from` becomes `to`.
pub open spec fn arrives(
    cache: Map<Seq<char>, FileMetaView>,
    path: Seq<char>,
    from: Seq<char>,
    to: Seq<char>,
) -> bool {
    cache.contains_key(origin(path, from, to)) && relocated(origin(path, from, to), from, to)
        == path
}

/// The record at `path` is left where it is when the directory `from` is
/// renamed.
pub open spec fn stays(cache: Map<Seq<char>, FileMetaView>, path: Seq<char>, from: Seq<char>)
    -> bool {
    cache.contains_key(path) && !is_under(path, from)
}

/// The cache after the directory `from` became `to`: every record under
/// `from` is kept whole under the path with the prefix replaced; all others
/// stay.
pub open spec fn subtree_renamed(
    cache: Map<Seq<char>, FileMetaView>,
    from: Seq<char>,
    to: Seq<char>,
) -> Map<Seq<char>, FileMetaView> {
    Map::new(
        |k: Seq<char>| arrives(cache, k, from, to) || stays(cache, k, from),
        |k: Seq<char>|
            if arrives(cache, k, from, to) {
                FileMetaView { path: k, ..cache[origin(k, from, to)] }
            } else {
                cache[k]
            },
    )
}

/// Renaming the directory `from` to `to` would put two records under one
/// path.
pub open spec fn subtree_rename_collides(
    cache: Map<Seq<char>, FileMetaView>,
    from: Seq<char>,
    to: Seq<char>,
) -> bool {
    exists|k: Seq<char>| #[trigger] arrives(cache, k, from, to) && stays(cache, k, from)
}

/// Why the cache refused a write.
#[derive(Clone, Copy, Debug, PartialEq, Eq, Structural)]
pub enum StoreError {
    /// The write would leave two records with the same path.
    PathTaken,
}

// ---------------------------------------------------------------------------
// Rows
// ---------------------------------------------------------------------------

spec fn distinct_paths(rows: Seq<FileMeta>) -> bool {
    forall|i: int, j: int|
        0 <= i < j < rows.len() ==> (#[trigger] rows[i]).path@ != (#[trigger] rows[j]).path@
}

spec fn has_path(rows: Seq<FileMeta>, path: Seq<char>) -> bool {
    exists|i: int| 0 <= i < rows.len() && (#[trigger] rows[i]).path@ == path
}

spec fn row_of(rows: Seq<FileMeta>, path: Seq<char>) -> int {
    choose|i: int| 0 <= i < rows.len() && (#[trigger] rows[i]).path@ == path
}

spec fn rows_map(rows: Seq<FileMeta>) -> Map<Seq<char>, FileMetaView> {
    Map::new(|k: Seq<char>| has_path(rows, k), |k: Seq<char>| rows[row_of(rows, k)]@)
}

proof fn lemma_row_lookup(rows: Seq<FileMeta>, i: int)
    requires
        distinct_paths(rows),
        0 <= i < rows.len(),
    ensures
        has_path(rows, rows[i].path@),
        row_of(rows, rows[i].path@) == i,
        rows_map(rows).contains_key(rows[i].path@),
        rows_map(rows)[rows[i].path@] == rows[i]@,
{
    let p = rows[i].path@;
    assert(has_path(rows, p));
    let c = row_of(rows, p);
    assert(0 <= c < rows.len() && rows[c].path@ == p);
    if c < i {
        assert(rows[c].path@ != rows[i].path@);
    } else if i < c {
        assert(rows[i].path@ != rows[c].path@);
    }
}

proof fn lemma_push_row(rows: Seq<FileMeta>, row: FileMeta)
    requires
        distinct_paths(rows),
        !has_path(rows, row.path@),
    ensures
        distinct_paths(rows.push(row)),
        rows_map(rows.push(row)) == rows_map(rows).insert(row.path@, row@),
{
    let next = rows.push(row);
    assert forall|i: int, j: int| 0 <= i < j < next.len() implies (#[trigger] next[i]).path@ != (
    #[trigger] next[j]).path@ by {
        if j < rows.len() {
            assert(rows[i].path@ != rows[j].path@);
        } else {
            assert(rows[i].path@ != row.path@);
        }
    }
    assert forall|k: Seq<char>| has_path(next, k) <==> (has_path(rows, k) || k == row.path@) by {
        if has_path(next, k) {
            let i = row_of(next, k);
            if i < rows.len() {
                assert(rows[i].path@ == k);
            }
        }
        if has_path(rows, k) {
            let i = row_of(rows, k);
            assert(next[i].path@ == k);
        }
        if k == row.path@ {
            assert(next[rows.len() as int].path@ == k);
        }
    }
    assert forall|k: Seq<char>| has_path(next, k) implies #[trigger] rows_map(next)[k]
        == rows_map(rows).insert(row.path@, row@)[k] by {
        let i = row_of(next, k);
        lemma_row_lookup(next, i);
        if i < rows.len() {
            lemma_row_lookup(rows, i);
        }
    }
    assert(rows_map(next) =~= rows_map(rows).insert(row.path@, row@));
}

proof fn lemma_remove_row(rows: Seq<FileMeta>, at: int)
    requires
        distinct_paths(rows),
        0 <= at < rows.len(),
    ensures
        distinct_paths(rows.remove(at)),
        !has_path(rows.remove(at), rows[at].path@),
        rows_map(rows.remove(at)) == rows_map(rows).remove(rows[at].path@),
{
    let next = rows.remove(at);
    let gone = rows[at].path@;
    assert forall|i: int| 0 <= i < next.len() implies #[trigger] next[i] == rows[if i < at {
        i
    } else {
        i + 1
    }] by {}
    assert forall|i: int, j: int| 0 <= i < j < next.len() implies (#[trigger] next[i]).path@ != (
    #[trigger] next[j]).path@ by {
        let oi = if i < at {
            i
        } else {
            i + 1
        };
        let oj = if j < at {
            j
        } else {
            j + 1
        };
        assert(rows[oi].path@ != rows[oj].path@);
    }
    assert forall|k: Seq<char>| has_path(next, k) <==> (has_path(rows, k) && k != gone) by {
        if has_path(next, k) {
            let i = row_of(next, k);
            let oi = if i < at {
                i
            } else {
                i + 1
            };
            assert(rows[oi].path@ == k);
            if oi < at {
                assert(rows[oi].path@ != rows[at].path@);
            } else {
                assert(rows[at].path@ != rows[oi].path@);
            }
        }
        if has_path(rows, k) && k != gone {
            let oi = row_of(rows, k);
            let i = if oi < at {
                oi
            } else {
                oi - 1
            };
            assert(next[i].path@ == k);
        }
    }
    assert forall|k: Seq<char>| has_path(next, k) implies #[trigger] rows_map(next)[k] == rows_map(
        rows,
    )[k] by {
        let i = row_of(next, k);
        let oi = if i < at {
            i
        } else {
            i + 1
        };
        lemma_row_lookup(next, i);
        lemma_row_lookup(rows, oi);
    }
    assert(rows_map(next) =~= rows_map(rows).remove(gone));
}

/// Every record is filed under its own path.
proof fn lemma_rows_map_paths(rows: Seq<FileMeta>)
    requires
        distinct_paths(rows),
    ensures
        forall|k: Seq<char>| #[trigger]
            rows_map(rows).contains_key(k) ==> rows_map(rows)[k].path == k,
{
    assert forall|k: Seq<char>| #[trigger] rows_map(rows).contains_key(k) implies rows_map(
        rows,
    )[k].path == k by {
        lemma_row_lookup(rows, row_of(rows, k));
    }
}

// ---------------------------------------------------------------------------
// The store
// ---------------------------------------------------------------------------

/// The cache of file records, keyed by path.
pub struct MetaStore {
    rows: Vec<FileMeta>,
}

impl View for MetaStore {
    type V = Map<Seq<char>, FileMetaView>;

    closed spec fn view(&self) -> Map<Seq<char>, FileMetaView> {
        rows_map(self.rows@)
    }
}

impl MetaStore {
    /// No two records share a path.
    pub closed spec fn wf(&self) -> bool {
        distinct_paths(self.rows@)
    }

    /// An empty cache.
    pub fn new() -> (store: MetaStore)
        ensures
            store.wf(),
            store@ == Map::<Seq<char>, FileMetaView>::empty(),
    {
        let store = MetaStore { rows: Vec::new() };
        proof {
            assert(store@ =~= Map::<Seq<char>, FileMetaView>::empty());
        }
        store
    }

    /// The number of records.
    pub fn len(&self) -> (n: usize)
        requires
            self.wf(),
        ensures
            self@.dom().finite(),
            n == self@.dom().len(),
    {
        proof {
            lemma_rows_map_size(self.rows@);
        }
        self.rows.len()
    }

    /// The records, one for each path, in no particular order.
    pub fn records(&self) -> (list: Vec<FileMeta>)
        requires
            self.wf(),
        ensures
            list@.len() == self@.dom().len(),
            forall|i: int|
                0 <= i < list@.len() ==> self@.contains_key((#[trigger] list@[i]).path@)
                    && self@[list@[i].path@] == list@[i]@,
            forall|k: Seq<char>|
                self@.contains_key(k) ==> exists|i: int|
                    0 <= i < list@.len() && (#[trigger] list@[i]).path@ == k,
    {
        let mut list: Vec<FileMeta> = Vec::new();
        let mut i: usize = 0;
        while i < self.rows.len()
            invariant
                i <= self.rows.len(),
                list@.len() == i,
                forall|j: int| 0 <= j < i ==> (#[trigger] list@[j])@ == self.rows@[j]@,
            decreases self.rows.len() - i,
        {
            list.push(copy_meta(&self.rows[i]));
            i = i + 1;
        }
        proof {
            lemma_rows_map_size(self.rows@);
            assert forall|j: int| 0 <= j < list@.len() implies self@.contains_key(
                (#[trigger] list@[j]).path@,
            ) && self@[list@[j].path@] == list@[j]@ by {
                lemma_row_lookup(self.rows@, j);
                assert(list@[j]@.path == self.rows@[j]@.path);
            }
            assert forall|k: Seq<char>| self@.contains_key(k) implies exists|j: int|
                0 <= j < list@.len() && (#[trigger] list@[j]).path@ == k by {
                let j = row_of(self.rows@, k);
                assert(list@[j]@.path == self.rows@[j]@.path);
            }
        }
        list
    }

    /// Every record is filed under its own path.
    pub proof fn lemma_keys_are_paths(&self)
        requires
            self.wf(),
        ensures
            keyed_by_path(self@),
    {
        lemma_rows_map_paths(self.rows@);
    }

    fn position(&self, path: &String) -> (r: Option<usize>)
        requires
            self.wf(),
        ensures
            match r {
                Some(i) => i < self.rows@.len() && self.rows@[i as int].path@ == path@,
                None => !has_path(self.rows@, path@),
            },
    {
        let mut i: usize = 0;
        while i < self.rows.len()
            invariant
                i <= self.rows.len(),
                forall|j: int| 0 <= j < i ==> (#[trigger] self.rows@[j]).path@ != path@,
            decreases self.rows.len() - i,
        {
            if self.rows[i].path == *path {
                return Some(i);
            }
            i = i + 1;
        }
        None
    }

    fn put(&mut self, row: FileMeta)
        requires
            old(self).wf(),
        ensures
            final(self).wf(),
            final(self)@ == old(self)@.insert(row.path@, row@),
    {
        match self.position(&row.path) {
            Some(i) => {
                proof {
                    lemma_remove_row(self.rows@, i as int);
                    lemma_push_row(self.rows@.remove(i as int), row);
                    assert(old(self)@.remove(row.path@).insert(row.path@, row@) =~= old(
                        self,
                    )@.insert(row.path@, row@));
                }
                self.rows.remove(i);
                self.rows.push(row);
            },
            None => {
                proof {
                    lemma_push_row(self.rows@, row);
                }
                self.rows.push(row);
            },
        }
    }
}

proof fn lemma_rows_map_size(rows: Seq<FileMeta>)
    requires
        distinct_paths(rows),
    ensures
        rows_map(rows).dom().finite(),
        rows_map(rows).dom().len() == rows.len(),
    decreases rows.len(),
{
    if rows.len() == 0 {
        assert(rows_map(rows).dom() =~= Set::<Seq<char>>::empty());
    } else {
        let init = rows.drop_last();
        let last = rows.last();
        assert forall|i: int, j: int| 0 <= i < j < init.len() implies (#[trigger] init[i]).path@
            != (#[trigger] init[j]).path@ by {
            assert(rows[i].path@ != rows[j].path@);
        }
        lemma_rows_map_size(init);
        assert(!has_path(init, last.path@)) by {
            if has_path(init, last.path@) {
                let i = row_of(init, last.path@);
                assert(rows[i].path@ != rows[rows.len() - 1].path@);
            }
        }
        lemma_push_row(init, last);
        assert(init.push(last) =~= rows);
        assert(rows_map(rows).dom() =~= rows_map(init).dom().insert(last.path@));
    }
}

// ---------------------------------------------------------------------------
// Operations
// ---------------------------------------------------------------------------

/// Looks up the record of a path.
pub fn get_file_meta(store: &MetaStore, path: &str) -> (r: Option<FileMeta>)
    requires
        store.wf(),
    ensures
        match r {
            Some(meta) => lookup(store@, path@) == Some(meta@) && meta@.path == path@,
            None => lookup(store@, path@) is None,
        },
{
    let key = String::from_str(path);
    match store.position(&key) {
        Some(i) => {
            proof {
                lemma_row_lookup(store.rows@, i as int);
            }
            Some(copy_meta(&store.rows[i]))
        },
        None => None,
    }
}

/// Writes a whole record, replacing every field of the record that the path
/// had before.
pub fn upsert_file_meta(store: &mut MetaStore, meta: &FileMeta)
    requires
        old(store).wf(),
    ensures
        final(store).wf(),
        final(store)@ == upserted(old(store)@, meta@),
{
    store.put(copy_meta(meta));
}

/// Sets the user's rating of a path and records the file's size and
/// modification time. The tags and the extracted fields of an existing
/// record are left as they are.
pub fn upsert_user_rating(
    store: &mut MetaStore,
    path: &str,
    rating: Option<i32>,
    file_size: i64,
    last_modified: i64,
)
    requires
        old(store).wf(),
    ensures
        final(store).wf(),
        final(store)@ == rated(old(store)@, path@, rating, file_size, last_modified),
{
    let key = String::from_str(path);
    let row = match store.position(&key) {
        Some(i) => {
            proof {
                lemma_row_lookup(store.rows@, i as int);
            }
            let mut row = copy_meta(&store.rows[i]);
            row.user_rating = rating;
            row.file_size = file_size;
            row.last_modified = last_modified;
            row
        },
        None => FileMeta {
            path: key,
            camera_rating: None,
            user_rating: rating,
            tags: Vec::new(),
            gps_lat: None,
            gps_lon: None,
            taken_at: None,
            orientation: None,
            file_size,
            last_modified,
        },
    };
    proof {
        assert(texts(Seq::<String>::empty()) =~= Seq::<Seq<char>>::empty());
    }
    store.put(row);
}

/// Sets the tags of a path and records the file's size and modification
/// time. The user's rating and the extracted fields of an existing record
/// are left as they are.
pub fn upsert_tags(
    store: &mut MetaStore,
    path: &str,
    tags: &[String],
    file_size: i64,
    last_modified: i64,
)
    requires
        old(store).wf(),
    ensures
        final(store).wf(),
        final(store)@ == retagged(old(store)@, path@, texts(tags@), file_size, last_modified),
{
    let key = String::from_str(path);
    let row = match store.position(&key) {
        Some(i) => {
            proof {
                lemma_row_lookup(store.rows@, i as int);
            }
            let mut row = copy_meta(&store.rows[i]);
            row.tags = copy_texts(tags);
            row.file_size = file_size;
            row.last_modified = last_modified;
            row
        },
        None => FileMeta {
            path: key,
            camera_rating: None,
            user_rating: None,
            tags: copy_texts(tags),
            gps_lat: None,
            gps_lon: None,
            taken_at: None,
            orientation: None,
            file_size,
            last_modified,
        },
    };
    store.put(row);
}

/// Drops the record of a path, if it has one.
pub fn delete_meta(store: &mut MetaStore, path: &str)
    requires
        old(store).wf(),
    ensures
        final(store).wf(),
        final(store)@ == old(store)@.remove(path@),
{
    let key = String::from_str(path);
    match store.position(&key) {
        Some(i) => {
            proof {
                lemma_remove_row(store.rows@, i as int);
            }
            store.rows.remove(i);
        },
        None => {
            proof {
                assert(store@.remove(path@) =~= store@);
            }
        },
    }
}

/// Drops the records of a directory and of everything under it. Leading
/// and trailing `/` of `prefix` do not count. A path that only shares its
/// first letters with the directory is not under it and stays.
pub fn delete_meta_prefix(store: &mut MetaStore, prefix: &str)
    requires
        old(store).wf(),
    ensures
        final(store).wf(),
        final(store)@ == without_subtree(old(store)@, trim_slashes(prefix@)),
{
    let raw = chars_of(prefix);
    let dir = strip_slashes(raw.as_slice());
    let ghost before = store@;
    let mut i: usize = 0;
    while i < store.rows.len()
        invariant
            i <= store.rows.len(),
            store.wf(),
            dir@ == trim_slashes(prefix@),
            forall|j: int| 0 <= j < i ==> !in_subtree((#[trigger] store.rows@[j]).path@, dir@),
            forall|k: Seq<char>| #[trigger]
                store@.contains_key(k) ==> before.contains_key(k) && store@[k] == before[k],
            forall|k: Seq<char>|
                before.contains_key(k) && !in_subtree(k, dir@) ==> #[trigger] store@.contains_key(
                    k,
                ),
        decreases store.rows.len() - i,
    {
        let path = chars_of(store.rows[i].path.as_str());
        if same_text(path.as_slice(), dir) || lies_under(path.as_slice(), dir) {
            let ghost prev = store@;
            proof {
                lemma_remove_row(store.rows@, i as int);
            }
            store.rows.remove(i);
            assert(store@ == prev.remove(path@));
            assert(in_subtree(path@, dir@));
        } else {
            i = i + 1;
        }
    }
    proof {
        assert forall|k: Seq<char>| #[trigger] store@.contains_key(k) implies !in_subtree(
            k,
            dir@,
        ) by {
            let j = row_of(store.rows@, k);
            assert(store.rows@[j].path@ == k);
        }
        assert(store@ =~= without_subtree(before, dir@));
    }
}

/// Lists the paths of the records of a directory and of everything under
/// it, each once. Leading and trailing `/` of `prefix` do not count.
pub fn subtree_paths(store: &MetaStore, prefix: &str) -> (list: Vec<String>)
    requires
        store.wf(),
    ensures
        forall|i: int|
            0 <= i < list@.len() ==> store@.contains_key((#[trigger] list@[i])@) && in_subtree(
                list@[i]@,
                trim_slashes(prefix@),
            ),
        forall|k: Seq<char>|
            store@.contains_key(k) && in_subtree(k, trim_slashes(prefix@)) ==> exists|i: int|
                0 <= i < list@.len() && (#[trigger] list@[i])@ == k,
        forall|i: int, j: int|
            0 <= i < j < list@.len() ==> (#[trigger] list@[i])@ != (#[trigger] list@[j])@,
{
    let raw = chars_of(prefix);
    let dir = strip_slashes(raw.as_slice());
    let mut list: Vec<String> = Vec::new();
    let ghost mut rows_of: Seq<int> = Seq::empty();
    let mut i: usize = 0;
    while i < store.rows.len()
        invariant
            i <= store.rows.len(),
            store.wf(),
            dir@ == trim_slashes(prefix@),
            rows_of.len() == list@.len(),
            forall|j: int|
                0 <= j < list@.len() ==> 0 <= (#[trigger] rows_of[j]) < i && list@[j]@
                    == store.rows@[rows_of[j]].path@ && in_subtree(list@[j]@, dir@),
            forall|a: int, b: int|
                0 <= a < b < rows_of.len() ==> (#[trigger] rows_of[a]) < (#[trigger] rows_of[b]),
            forall|r: int|
                0 <= r < i && in_subtree((#[trigger] store.rows@[r]).path@, dir@) ==> exists|
                    j: int,
                | 0 <= j < list@.len() && (#[trigger] list@[j])@ == store.rows@[r].path@,
        decreases store.rows.len() - i,
    {
        let path = chars_of(store.rows[i].path.as_str());
        if same_text(path.as_slice(), dir) || lies_under(path.as_slice(), dir) {
            let ghost before = list@;
            list.push(store.rows[i].path.clone());
            proof {
                rows_of = rows_of.push(i as int);
                assert forall|r: int|
                    0 <= r < i + 1 && in_subtree(
                        (#[trigger] store.rows@[r]).path@,
                        dir@,
                    ) implies exists|j: int|
                    0 <= j < list@.len() && (#[trigger] list@[j])@ == store.rows@[r].path@ by {
                    if r < i {
                        let j = choose|j: int|
                            0 <= j < before.len() && (#[trigger] before[j])@
                                == store.rows@[r].path@;
                        assert(list@[j]@ == store.rows@[r].path@);
                    } else {
                        assert(list@[before.len() as int]@ == store.rows@[r].path@);
                    }
                }
            }
        }
        i = i + 1;
    }
    proof {
        assert forall|j: int| 0 <= j < list@.len() implies store@.contains_key(
            (#[trigger] list@[j])@,
        ) && in_subtree(list@[j]@, trim_slashes(prefix@)) by {
            lemma_row_lookup(store.rows@, rows_of[j]);
        }
        assert forall|k: Seq<char>|
            store@.contains_key(k) && in_subtree(k, trim_slashes(prefix@)) implies exists|
            j: int,
        | 0 <= j < list@.len() && (#[trigger] list@[j])@ == k by {
            let r = row_of(store.rows@, k);
            assert(store.rows@[r].path@ == k);
        }
        assert forall|a: int, b: int| 0 <= a < b < list@.len() implies (#[trigger] list@[a])@ != (
        #[trigger] list@[b])@ by {
            assert(rows_of[a] < rows_of[b]);
            assert(store.rows@[rows_of[a]].path@ != store.rows@[rows_of[b]].path@);
        }
    }
    list
}

/// Follows the rename of the file `from_path` to `to_path`: the record
/// keeps everything but its path. Where `from_path` has no record nothing
/// changes. The rename is refused, and nothing changes, where `to_path`
/// already has a record of its own.
pub fn move_meta(store: &mut MetaStore, from_path: &str, to_path: &str) -> (r: Result<
    (),
    StoreError,
>)
    requires
        old(store).wf(),
    ensures
        final(store).wf(),
        match r {
            Ok(_) => !rename_collides(old(store)@, from_path@, to_path@) && final(store)@
                == renamed(old(store)@, from_path@, to_path@),
            Err(e) => rename_collides(old(store)@, from_path@, to_path@) && final(store)@ == old(
                store,
            )@ && e == StoreError::PathTaken,
        },
{
    let from = String::from_str(from_path);
    let to = String::from_str(to_path);
    let at = match store.position(&from) {
        Some(i) => i,
        None => {
            return Ok(());
        },
    };
    proof {
        lemma_row_lookup(store.rows@, at as int);
        lemma_rows_map_paths(store.rows@);
    }
    if from == to {
        proof {
            assert(store@.remove(from@).insert(to@, FileMetaView { path: to@, ..store@[from@] })
                =~= store@);
        }
        return Ok(());
    }
    if let Some(taken) = store.position(&to) {
        proof {
            lemma_row_lookup(store.rows@, taken as int);
        }
        return Err(StoreError::PathTaken);
    }
    let mut row = copy_meta(&store.rows[at]);
    row.path = to;
    proof {
        lemma_remove_row(store.rows@, at as int);
        let rest = store.rows@.remove(at as int);
        assert(!has_path(rest, row.path@)) by {
            if has_path(rest, row.path@) {
                let j = row_of(rest, row.path@);
                let oj = if j < at {
                    j
                } else {
                    j + 1
                };
                assert(store.rows@[oj].path@ == row.path@);
            }
        }
        lemma_push_row(rest, row);
    }
    store.rows.remove(at);
    store.rows.push(row);
    Ok(())
}

/// A record as it stands after the directory `from` became `to`.
spec fn carried(record: FileMetaView, from: Seq<char>, to: Seq<char>) -> FileMetaView {
    if is_under(record.path, from) {
        FileMetaView { path: relocated(record.path, from, to), ..record }
    } else {
        record
    }
}

/// No row that moves would land on a row that stays.
spec fn rows_clear(rows: Seq<FileMeta>, from: Seq<char>, to: Seq<char>) -> bool {
    forall|a: int, b: int|
        0 <= a < rows.len() && 0 <= b < rows.len() && is_under((#[trigger] rows[a]).path@, from)
            && !is_under((#[trigger] rows[b]).path@, from) ==> relocated(rows[a].path@, from, to)
            != rows[b].path@
}

proof fn lemma_clear_rows_do_not_collide(rows: Seq<FileMeta>, from: Seq<char>, to: Seq<char>)
    requires
        distinct_paths(rows),
        rows_clear(rows, from, to),
    ensures
        !subtree_rename_collides(rows_map(rows), from, to),
{
    let cache = rows_map(rows);
    if subtree_rename_collides(cache, from, to) {
        let k = choose|k: Seq<char>| #[trigger]
            arrives(cache, k, from, to) && stays(cache, k, from);
        let a = row_of(rows, origin(k, from, to));
        let b = row_of(rows, k);
        lemma_origin_is_under(k, from, to);
        assert(is_under(rows[a].path@, from) && !is_under(rows[b].path@, from));
    }
}

proof fn lemma_carried_rows(
    rows: Seq<FileMeta>,
    out: Seq<FileMeta>,
    from: Seq<char>,
    to: Seq<char>,
)
    requires
        distinct_paths(rows),
        rows_clear(rows, from, to),
        out.len() == rows.len(),
        forall|j: int| 0 <= j < rows.len() ==> (#[trigger] out[j])@ == carried(rows[j]@, from, to),
    ensures
        distinct_paths(out),
        rows_map(out) == subtree_renamed(rows_map(rows), from, to),
{
    let cache = rows_map(rows);
    assert forall|i: int, j: int| 0 <= i < j < out.len() implies (#[trigger] out[i]).path@ != (
    #[trigger] out[j]).path@ by {
        let pi = rows[i].path@;
        let pj = rows[j].path@;
        assert(out[i]@.path == carried(rows[i]@, from, to).path);
        assert(out[j]@.path == carried(rows[j]@, from, to).path);
        assert(pi != pj);
        if is_under(pi, from) && is_under(pj, from) {
            if relocated(pi, from, to) == relocated(pj, from, to) {
                lemma_relocated_injective(pi, pj, from, to);
            }
        }
    }
    assert forall|k: Seq<char>| has_path(out, k) <==> (arrives(cache, k, from, to) || stays(
        cache,
        k,
        from,
    )) by {
        if has_path(out, k) {
            let j = row_of(out, k);
            lemma_row_lookup(rows, j);
            assert(out[j]@.path == carried(rows[j]@, from, to).path);
            if is_under(rows[j].path@, from) {
                lemma_origin_of_relocated(rows[j].path@, from, to);
            }
        }
        if arrives(cache, k, from, to) {
            let j = row_of(rows, origin(k, from, to));
            lemma_origin_is_under(k, from, to);
            assert(out[j]@.path == carried(rows[j]@, from, to).path);
            assert(out[j].path@ == k);
        }
        if stays(cache, k, from) {
            let j = row_of(rows, k);
            assert(out[j]@.path == carried(rows[j]@, from, to).path);
            assert(out[j].path@ == k);
        }
    }
    assert forall|k: Seq<char>| has_path(out, k) implies #[trigger] rows_map(out)[k]
        == subtree_renamed(cache, from, to)[k] by {
        let j = row_of(out, k);
        lemma_row_lookup(out, j);
        lemma_row_lookup(rows, j);
        assert(out[j]@ == carried(rows[j]@, from, to));
        if is_under(rows[j].path@, from) {
            lemma_origin_of_relocated(rows[j].path@, from, to);
        } else {
            if arrives(cache, k, from, to) {
                let a = row_of(rows, origin(k, from, to));
                lemma_origin_is_under(k, from, to);
                assert(is_under(rows[a].path@, from) && !is_under(rows[j].path@, from));
            }
        }
    }
    assert(rows_map(out) =~= subtree_renamed(cache, from, to));
}

/// Follows the rename of the directory `from_prefix` to `to_prefix`: every
/// record under the directory keeps everything but the prefix of its path,
/// in one step. Leading and trailing `/` of both prefixes do not count; an
/// empty `to_prefix` is the root. The rename is refused, and nothing
/// changes, where a record would land on the path of a record that stays.
pub fn move_meta_prefix(store: &mut MetaStore, from_prefix: &str, to_prefix: &str) -> (r: Result<
    (),
    StoreError,
>)
    requires
        old(store).wf(),
    ensures
        final(store).wf(),
        match r {
            Ok(_) => !subtree_rename_collides(
                old(store)@,
                trim_slashes(from_prefix@),
                trim_slashes(to_prefix@),
            ) && final(store)@ == subtree_renamed(
                old(store)@,
                trim_slashes(from_prefix@),
                trim_slashes(to_prefix@),
            ),
            Err(e) => subtree_rename_collides(
                old(store)@,
                trim_slashes(from_prefix@),
                trim_slashes(to_prefix@),
            ) && final(store)@ == old(store)@ && e == StoreError::PathTaken,
        },
{
    let raw_from = chars_of(from_prefix);
    let raw_to = chars_of(to_prefix);
    let from = strip_slashes(raw_from.as_slice());
    let to = strip_slashes(raw_to.as_slice());
    let count = store.rows.len();
    let mut i: usize = 0;
    while i < count
        invariant
            i <= count,
            count == store.rows@.len(),
            store.wf(),
            store@ == old(store)@,
            store.rows@ == old(store).rows@,
            from@ == trim_slashes(from_prefix@),
            to@ == trim_slashes(to_prefix@),
            forall|a: int, b: int|
                0 <= a < i && 0 <= b < count && is_under((#[trigger] store.rows@[a]).path@, from@)
                    && !is_under((#[trigger] store.rows@[b]).path@, from@) ==> relocated(
                    store.rows@[a].path@,
                    from@,
                    to@,
                ) != store.rows@[b].path@,
        decreases count - i,
    {
        let path = chars_of(store.rows[i].path.as_str());
        if lies_under(path.as_slice(), from) {
            let target = relocate(path.as_slice(), from, to);
            let mut j: usize = 0;
            while j < count
                invariant
                    j <= count,
                    i < count,
                    count == store.rows@.len(),
                    store.wf(),
                    store@ == old(store)@,
                    store.rows@ == old(store).rows@,
                    from@ == trim_slashes(from_prefix@),
                    to@ == trim_slashes(to_prefix@),
                    path@ == store.rows@[i as int].path@,
                    is_under(path@, from@),
                    target@ == relocated(path@, from@, to@),
                    forall|b: int|
                        0 <= b < j && !is_under((#[trigger] store.rows@[b]).path@, from@)
                            ==> store.rows@[b].path@ != target@,
                decreases count - j,
            {
                let other = chars_of(store.rows[j].path.as_str());
                if !lies_under(other.as_slice(), from) && same_text(
                    other.as_slice(),
                    target.as_slice(),
                ) {
                    proof {
                        lemma_row_lookup(store.rows@, i as int);
                        lemma_row_lookup(store.rows@, j as int);
                        lemma_origin_of_relocated(path@, from@, to@);
                        assert(arrives(store@, target@, from@, to@));
                        assert(stays(store@, target@, from@));
                    }
                    return Err(StoreError::PathTaken);
                }
                j = j + 1;
            }
        }
        i = i + 1;
    }
    let mut out: Vec<FileMeta> = Vec::new();
    let mut i: usize = 0;
    while i < count
        invariant
            i <= count,
            count == store.rows@.len(),
            store.rows@ == old(store).rows@,
            from@ == trim_slashes(from_prefix@),
            to@ == trim_slashes(to_prefix@),
            out@.len() == i,
            forall|j: int|
                0 <= j < i ==> (#[trigger] out@[j])@ == carried(store.rows@[j]@, from@, to@),
        decreases count - i,
    {
        let mut row = copy_meta(&store.rows[i]);
        let path = chars_of(row.path.as_str());
        if lies_under(path.as_slice(), from) {
            row.path = string_of(relocate(path.as_slice(), from, to).as_slice());
        }
        out.push(row);
        i = i + 1;
    }
    proof {
        assert(rows_clear(store.rows@, from@, to@));
        lemma_clear_rows_do_not_collide(store.rows@, from@, to@);
        lemma_carried_rows(store.rows@, out@, from@, to@);
    }
    store.rows = out;
    Ok(())
}

// ---------------------------------------------------------------------------
// Laws
// ---------------------------------------------------------------------------

/// A record that was written in full is read back exactly as it was
/// written, its tags in the same order.
pub proof fn lemma_upsert_then_get(cache: Map<Seq<char>, FileMetaView>, record: FileMetaView)
    ensures
        lookup(upserted(cache, record), record.path) == Some(record),
{
}

/// A full write changes the record of no other path.
pub proof fn lemma_upsert_keeps_others(
    cache: Map<Seq<char>, FileMetaView>,
    record: FileMetaView,
    other: Seq<char>,
)
    requires
        other != record.path,
    ensures
        lookup(upserted(cache, record), other) == lookup(cache, other),
{
}

/// A rating edit leaves the tags and every extracted field of the record
/// as they were.
pub proof fn lemma_rating_edit_keeps_tags(
    cache: Map<Seq<char>, FileMetaView>,
    path: Seq<char>,
    rating: Option<i32>,
    file_size: i64,
    last_modified: i64,
)
    requires
        cache.contains_key(path),
    ensures
        rated(cache, path, rating, file_size, last_modified)[path] == (FileMetaView {
            user_rating: rating,
            file_size,
            last_modified,
            ..cache[path]
        }),
        rated(cache, path, rating, file_size, last_modified)[path].tags == cache[path].tags,
{
}

/// A tag edit leaves the user's rating and every extracted field of the
/// record as they were.
pub proof fn lemma_tag_edit_keeps_rating(
    cache: Map<Seq<char>, FileMetaView>,
    path: Seq<char>,
    tags: Seq<Seq<char>>,
    file_size: i64,
    last_modified: i64,
)
    requires
        cache.contains_key(path),
    ensures
        retagged(cache, path, tags, file_size, last_modified)[path] == (FileMetaView {
            tags,
            file_size,
            last_modified,
            ..cache[path]
        }),
        retagged(cache, path, tags, file_size, last_modified)[path].user_rating
            == cache[path].user_rating,
{
}

/// After a subtree is dropped, its directory and every path under it have
/// no record, and every other path has the record it had.
pub proof fn lemma_subtree_delete(
    cache: Map<Seq<char>, FileMetaView>,
    dir: Seq<char>,
    path: Seq<char>,
)
    ensures
        lookup(without_subtree(cache, dir), path) == if in_subtree(path, dir) {
            None
        } else {
            lookup(cache, path)
        },
{
}

/// A subtree delete leaves alone every path that continues the name of the
/// directory without a `/` in between.
pub proof fn lemma_subtree_delete_keeps_siblings(
    cache: Map<Seq<char>, FileMetaView>,
    dir: Seq<char>,
    more: Seq<char>,
)
    requires
        more.len() > 0,
        more[0] != '/',
    ensures
        lookup(without_subtree(cache, dir), dir + more) == lookup(cache, dir + more),
{
    lemma_sibling_is_not_under(dir, more);
}

/// Renaming a file to its own path changes nothing.
pub proof fn lemma_rename_to_itself(cache: Map<Seq<char>, FileMetaView>, path: Seq<char>)
    requires
        keyed_by_path(cache),
    ensures
        renamed(cache, path, path) == cache,
{
    if cache.contains_key(path) {
        assert(cache.remove(path).insert(path, FileMetaView { path: path, ..cache[path] })
            =~= cache);
    }
}

/// After the rename of a single file, the old path has no record and the
/// new path has the old record.
pub proof fn lemma_rename_relocates(
    cache: Map<Seq<char>, FileMetaView>,
    from: Seq<char>,
    to: Seq<char>,
)
    requires
        cache.contains_key(from),
        from != to,
    ensures
        lookup(renamed(cache, from, to), from) is None,
        lookup(renamed(cache, from, to), to) == Some(FileMetaView { path: to, ..cache[from] }),
{
}

/// After the rename of a directory to one that neither contains it nor
/// lies within it, a path under the old directory has no record, and the
/// corresponding path under the new directory has the old record.
pub proof fn lemma_subtree_rename_relocates(
    cache: Map<Seq<char>, FileMetaView>,
    from: Seq<char>,
    to: Seq<char>,
    path: Seq<char>,
)
    requires
        cache.contains_key(path),
        is_under(path, from),
        to.len() > 0,
        from != to,
        !is_under(to, from),
        !is_under(from, to),
    ensures
        lookup(subtree_renamed(cache, from, to), path) is None,
        lookup(subtree_renamed(cache, from, to), relocated(path, from, to)) == Some(
            FileMetaView { path: relocated(path, from, to), ..cache[path] },
        ),
{
    lemma_origin_of_relocated(path, from, to);
    if arrives(cache, path, from, to) {
        lemma_relocated_is_under(origin(path, from, to), from, to);
        lemma_unrelated_dirs_share_nothing(path, from, to);
    }
}

/// The rename of a directory leaves every record outside of it, and outside
/// of where it goes, as it was.
pub proof fn lemma_subtree_rename_keeps_others(
    cache: Map<Seq<char>, FileMetaView>,
    from: Seq<char>,
    to: Seq<char>,
    path: Seq<char>,
)
    requires
        !is_under(path, from),
        !arrives(cache, path, from, to),
    ensures
        lookup(subtree_renamed(cache, from, to), path) == lookup(cache, path),
{
}

} // verus!
