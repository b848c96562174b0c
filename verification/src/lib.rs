//! Core of a RAW photo library manager: metadata extraction, preview
//! selection, and a path-keyed metadata cache that stays consistent with the
//! files on disk.
//!
//! The core reads no file and opens no connection. Callers hand it bytes,
//! sizes and times, and carry out what it decides.
//!
//! - [`metadata`], [`exif`], [`xmp`]: what a RAW file says about itself.
//! - [`preview`]: the largest embedded JPEG, and where its copy is cached.
//! - [`cache`], [`tags`], [`persist`]: the records, one per path.
//! - [`consistency`]: records follow their files through moves and deletes.
//! - [`freshness`], [`listing`], [`edits`]: serving requests from the cache.
//! - [`paths`], [`text`], [`error`]: shared ground.

pub mod cache;
pub mod consistency;
pub mod edits;
pub mod error;
pub mod exif;
pub mod freshness;
pub mod listing;
pub mod metadata;
pub mod paths;
pub mod persist;
pub mod preview;
pub mod tags;
pub mod text;
pub mod xmp;
