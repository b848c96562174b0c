//! The user's edits: setting the rating and the tags of a file.

use crate::cache::{rated, retagged, texts, upsert_tags, upsert_user_rating, MetaStore};
use crate::error::{ApiError, ErrorKind};
use crate::tags::{normalize_tags, normalized};
use vstd::prelude::*;

verus! {

/// A rating that may be stored: none, or 0 through 5 stars.
pub open spec fn rating_allowed(rating: Option<i32>) -> bool {
    rating matches Some(v) ==> 0 <= v <= 5
}

/// Checks a rating that a caller sends. A rating outside 0 through 5 is
/// invalid input.
pub fn validate_rating(rating: Option<i32>) -> (r: Result<(), ApiError>)
    ensures
        match r {
            Ok(_) => rating_allowed(rating),
            Err(e) => !rating_allowed(rating) && e.kind == ErrorKind::InvalidInput && e.message@
                == "Rating must be 0-5"@,
        },
{
    match rating {
        Some(v) => if 0 <= v && v <= 5 {
            Ok(())
        } else {
            Err(ApiError::new(ErrorKind::InvalidInput, "Rating must be 0-5"))
        },
        None => Ok(()),
    }
}

/// Sets the user's rating of a file whose live size and modification time
/// the caller has just observed, and returns the rating as stored. A rating
/// outside 0 through 5 is refused and the cache is left alone.
pub fn set_rating(
    store: &mut MetaStore,
    path: &str,
    rating: Option<i32>,
    file_size: i64,
    last_modified: i64,
) -> (r: Result<Option<i32>, ApiError>)
    requires
        old(store).wf(),
    ensures
        final(store).wf(),
        match r {
            Ok(stored) => rating_allowed(rating) && stored == rating && final(store)@ == rated(
                old(store)@,
                path@,
                rating,
                file_size,
                last_modified,
            ),
            Err(e) => !rating_allowed(rating) && final(store)@ == old(store)@ && e.kind
                == ErrorKind::InvalidInput && e.message@ == "Rating must be 0-5"@,
        },
{
    match validate_rating(rating) {
        Ok(_) => {
            upsert_user_rating(store, path, rating, file_size, last_modified);
            Ok(rating)
        },
        Err(e) => Err(e),
    }
}

/// Sets the tags of a file whose live size and modification time the
/// caller has just observed, and returns the tags as stored: trimmed,
/// without blanks, and without repeats that differ in letter case only.
pub fn set_tags(
    store: &mut MetaStore,
    path: &str,
    tags: &Vec<String>,
    file_size: i64,
    last_modified: i64,
) -> (stored: Vec<String>)
    requires
        old(store).wf(),
    ensures
        final(store).wf(),
        texts(stored@) == normalized(texts(tags@)),
        final(store)@ == retagged(
            old(store)@,
            path@,
            normalized(texts(tags@)),
            file_size,
            last_modified,
        ),
{
    let stored = normalize_tags(tags);
    upsert_tags(store, path, stored.as_slice(), file_size, last_modified);
    stored
}

} // verus!
