//! Deciding, request by request, whether a cached record still describes its
//! file, and bringing a stale record up to date without losing what the
//! user set.

use crate::cache::{
    copy_texts, get_file_meta, lookup, texts, upsert_file_meta, upserted, FileMeta, FileMetaView,
    MetaStore,
};
use crate::exif::container_fields;
use crate::metadata::{file_metadata, lossy_view, read_metadata, ExtractedMeta, ExtractedMetaView};
use crate::text::utf8_lossy;
use vstd::prelude::*;
use vstd::string::StringExecFns;

verus! {

/// How a cached record stands to the file as it is now.
#[derive(Clone, Copy, Debug, PartialEq, Eq, Structural)]
pub enum Freshness {
    /// The path has no record.
    NoRecord,
    /// Size and time agree, but the record was written before orientation
    /// was extracted and has to be filled in.
    StaleMissingAttribute,
    /// The file's size or modification time differs from the record's.
    StaleSizeOrTime,
    /// The record can be used as it is.
    Fresh,
}

/// The freshness token of the record matches the file.
pub open spec fn token_matches(record: FileMetaView, file_size: i64, last_modified: i64) -> bool {
    record.file_size == file_size && record.last_modified == last_modified
}

/// The record can be used as it is: its token matches the file and its
/// orientation is present.
pub open spec fn is_fresh(record: FileMetaView, file_size: i64, last_modified: i64) -> bool {
    token_matches(record, file_size, last_modified) && record.orientation is Some
}

/// How a cached record, if any, stands to a file of the given size and
/// modification time.
pub open spec fn freshness_of(cached: Option<FileMetaView>, file_size: i64, last_modified: i64)
    -> Freshness {
    match cached {
        None => Freshness::NoRecord,
        Some(record) => if !token_matches(record, file_size, last_modified) {
            Freshness::StaleSizeOrTime
        } else if record.orientation is None {
            Freshness::StaleMissingAttribute
        } else {
            Freshness::Fresh
        },
    }
}

/// The view of an optional record.
pub open spec fn record_view(cached: Option<&FileMeta>) -> Option<FileMetaView> {
    match cached {
        Some(meta) => Some(meta@),
        None => None,
    }
}

/// Classifies a cached record against the live size and modification time
/// of its file.
pub fn classify(cached: Option<&FileMeta>, file_size: i64, last_modified: i64) -> (state: Freshness)
    ensures
        state == freshness_of(record_view(cached), file_size, last_modified),
        state == Freshness::Fresh <==> (cached matches Some(meta) && is_fresh(
            meta@,
            file_size,
            last_modified,
        )),
{
    match cached {
        None => Freshness::NoRecord,
        Some(meta) => {
            if meta.file_size != file_size || meta.last_modified != last_modified {
                Freshness::StaleSizeOrTime
            } else if meta.orientation.is_none() {
                Freshness::StaleMissingAttribute
            } else {
                Freshness::Fresh
            }
        },
    }
}

/// Whether a listing has to flag the file for a later scan: always, unless
/// its record is fresh.
pub fn needs_scan(cached: Option<&FileMeta>, file_size: i64, last_modified: i64) -> (flag: bool)
    ensures
        flag == (freshness_of(record_view(cached), file_size, last_modified) != Freshness::Fresh),
{
    match classify(cached, file_size, last_modified) {
        Freshness::Fresh => false,
        _ => true,
    }
}

/// The record that a resync writes: the extracted fields as they were just
/// read, the user's rating and tags as the prior record had them, and the
/// live size and time as the new token. A file that gives no orientation
/// leaves a record without one, which the next read finds stale.
pub open spec fn merged(
    path: Seq<char>,
    extracted: ExtractedMetaView,
    prior: Option<FileMetaView>,
    file_size: i64,
    last_modified: i64,
) -> FileMetaView {
    FileMetaView {
        path,
        camera_rating: extracted.camera_rating,
        user_rating: match prior {
            Some(p) => p.user_rating,
            None => None,
        },
        tags: match prior {
            Some(p) => p.tags,
            None => Seq::empty(),
        },
        gps_lat: extracted.gps_lat,
        gps_lon: extracted.gps_lon,
        taken_at: extracted.taken_at,
        orientation: extracted.orientation,
        file_size,
        last_modified,
    }
}

/// Merges freshly extracted fields with the user's fields of the prior
/// record.
pub fn merge_extracted(
    path: &str,
    extracted: ExtractedMeta,
    prior: Option<&FileMeta>,
    file_size: i64,
    last_modified: i64,
) -> (record: FileMeta)
    ensures
        record@ == merged(path@, extracted@, record_view(prior), file_size, last_modified),
{
    let (user_rating, tags) = match prior {
        Some(p) => (p.user_rating, copy_texts(p.tags.as_slice())),
        None => {
            proof {
                assert(texts(Seq::<String>::empty()) =~= Seq::<Seq<char>>::empty());
            }
            (None, Vec::new())
        },
    };
    FileMeta {
        path: String::from_str(path),
        camera_rating: extracted.camera_rating,
        user_rating,
        tags,
        gps_lat: extracted.gps_lat,
        gps_lon: extracted.gps_lon,
        taken_at: extracted.taken_at,
        orientation: extracted.orientation,
        file_size,
        last_modified,
    }
}

/// Returns the cached record of a path where it is fresh for a file of the
/// given size and modification time, and `None` where the file has to be
/// read again.
pub fn lookup_fresh(store: &MetaStore, path: &str, file_size: i64, last_modified: i64) -> (r:
    Option<FileMeta>)
    requires
        store.wf(),
    ensures
        match r {
            Some(meta) => lookup(store@, path@) == Some(meta@) && is_fresh(
                meta@,
                file_size,
                last_modified,
            ),
            None => freshness_of(lookup(store@, path@), file_size, last_modified)
                != Freshness::Fresh,
        },
{
    match get_file_meta(store, path) {
        Some(meta) => match classify(Some(&meta), file_size, last_modified) {
            Freshness::Fresh => Some(meta),
            _ => None,
        },
        None => None,
    }
}

/// Brings the record of a path up to date with what was just extracted
/// from its file: the merged record is written to the cache and returned.
pub fn resync(
    store: &mut MetaStore,
    path: &str,
    extracted: ExtractedMeta,
    file_size: i64,
    last_modified: i64,
) -> (record: FileMeta)
    requires
        old(store).wf(),
    ensures
        final(store).wf(),
        record@ == merged(
            path@,
            extracted@,
            lookup(old(store)@, path@),
            file_size,
            last_modified,
        ),
        final(store)@ == upserted(old(store)@, record@),
        token_matches(record@, file_size, last_modified),
        is_fresh(record@, file_size, last_modified) <==> extracted.orientation is Some,
{
    let prior = get_file_meta(store, path);
    let record = match &prior {
        Some(p) => merge_extracted(path, extracted, Some(p), file_size, last_modified),
        None => merge_extracted(path, extracted, None, file_size, last_modified),
    };
    upsert_file_meta(store, &record);
    record
}

/// Reads the metadata of a file again, from its bytes and the bytes of its
/// sidecar, and brings its record up to date.
pub fn refresh(
    store: &mut MetaStore,
    path: &str,
    data: &[u8],
    sidecar: Option<&[u8]>,
    file_size: i64,
    last_modified: i64,
) -> (record: FileMeta)
    requires
        old(store).wf(),
    ensures
        final(store).wf(),
        record@ == merged(
            path@,
            file_metadata(container_fields(data@), utf8_lossy(data@), lossy_view(sidecar)),
            lookup(old(store)@, path@),
            file_size,
            last_modified,
        ),
        final(store)@ == upserted(old(store)@, record@),
        token_matches(record@, file_size, last_modified),
        is_fresh(record@, file_size, last_modified) <==> file_metadata(
            container_fields(data@),
            utf8_lossy(data@),
            lossy_view(sidecar),
        ).orientation is Some,
{
    let extracted = read_metadata(data, sidecar);
    resync(store, path, extracted, file_size, last_modified)
}

// ---------------------------------------------------------------------------
// Laws
// ---------------------------------------------------------------------------

/// A record is fresh exactly when the stored size and modification time
/// match the file's and its orientation is present.
pub proof fn lemma_fresh_iff(record: FileMetaView, file_size: i64, last_modified: i64)
    ensures
        freshness_of(Some(record), file_size, last_modified) == Freshness::Fresh <==> (
        record.file_size == file_size && record.last_modified == last_modified
            && record.orientation is Some),
{
}

/// A fresh record turns stale as soon as the file's size or modification
/// time changes.
pub proof fn lemma_changed_file_is_stale(
    record: FileMetaView,
    file_size: i64,
    last_modified: i64,
    new_size: i64,
    new_modified: i64,
)
    requires
        is_fresh(record, file_size, last_modified),
        new_size != file_size || new_modified != last_modified,
    ensures
        freshness_of(Some(record), new_size, new_modified) == Freshness::StaleSizeOrTime,
{
}

/// A record without orientation is stale even where size and time match.
pub proof fn lemma_missing_orientation_is_stale(
    record: FileMetaView,
    file_size: i64,
    last_modified: i64,
)
    requires
        token_matches(record, file_size, last_modified),
    ensures
        freshness_of(
            Some(FileMetaView { orientation: None, ..record }),
            file_size,
            last_modified,
        ) == Freshness::StaleMissingAttribute,
{
}

/// A resync keeps the user's rating and tags. The record it leaves carries
/// the token of the file it was made from, and is fresh for that file
/// exactly when the file gave an orientation; without one the record is
/// stale for want of the attribute, and the next read extracts again.
pub proof fn lemma_resync_keeps_user_fields(
    path: Seq<char>,
    extracted: ExtractedMetaView,
    prior: FileMetaView,
    file_size: i64,
    last_modified: i64,
)
    ensures
        merged(path, extracted, Some(prior), file_size, last_modified).user_rating
            == prior.user_rating,
        merged(path, extracted, Some(prior), file_size, last_modified).tags == prior.tags,
        freshness_of(
            Some(merged(path, extracted, Some(prior), file_size, last_modified)),
            file_size,
            last_modified,
        ) == if extracted.orientation is Some {
            Freshness::Fresh
        } else {
            Freshness::StaleMissingAttribute
        },
{
}

} // verus!
