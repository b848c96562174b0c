//! Keeping the cache in step with the files: what to do to the records
//! when files and directories are deleted or moved.

use crate::cache::{
    delete_meta, delete_meta_prefix, in_subtree, move_meta, move_meta_prefix, rename_collides,
    renamed, subtree_rename_collides, subtree_renamed, without_subtree, FileMetaView, MetaStore,
    StoreError,
};
use crate::paths::{lies_under, trim_slashes};
use crate::text::{chars_of, same_text};
use vstd::prelude::*;

verus! {

/// How a path is removed from disk.
#[derive(Clone, Copy, Debug, PartialEq, Eq, Structural)]
pub enum DeleteAction {
    /// Remove a directory with everything in it.
    RemoveTree,
    /// Remove a directory that must be empty.
    RemoveEmptyDir,
    /// Remove a single file.
    RemoveFile,
}

/// Chooses how to remove a path: a directory goes with its contents only
/// where the caller asked for that.
pub fn plan_delete(is_dir: bool, recursive: bool) -> (action: DeleteAction)
    ensures
        action == if !is_dir {
            DeleteAction::RemoveFile
        } else if recursive {
            DeleteAction::RemoveTree
        } else {
            DeleteAction::RemoveEmptyDir
        },
{
    if !is_dir {
        DeleteAction::RemoveFile
    } else if recursive {
        DeleteAction::RemoveTree
    } else {
        DeleteAction::RemoveEmptyDir
    }
}

/// The cache after a removal from disk has succeeded.
pub open spec fn after_removal(
    cache: Map<Seq<char>, FileMetaView>,
    path: Seq<char>,
    action: DeleteAction,
) -> Map<Seq<char>, FileMetaView> {
    match action {
        DeleteAction::RemoveTree => without_subtree(cache, trim_slashes(path)),
        DeleteAction::RemoveEmptyDir => cache,
        DeleteAction::RemoveFile => cache.remove(path),
    }
}

/// Follows a removal from disk: the record of a removed file is dropped,
/// as are the records of everything in a removed tree. An empty directory
/// had no records to drop.
pub fn record_delete(store: &mut MetaStore, path: &str, action: DeleteAction)
    requires
        old(store).wf(),
    ensures
        final(store).wf(),
        final(store)@ == after_removal(old(store)@, path@, action),
{
    match action {
        DeleteAction::RemoveTree => delete_meta_prefix(store, path),
        DeleteAction::RemoveEmptyDir => {},
        DeleteAction::RemoveFile => delete_meta(store, path),
    }
}

/// Follows a move on disk: the records of a moved directory are rewritten
/// together, the record of a moved file alone. Records keep everything but
/// their path. Where the move would put two records under one path it is
/// refused and nothing changes.
pub fn record_move(store: &mut MetaStore, from: &str, to: &str, is_dir: bool) -> (r: Result<
    (),
    StoreError,
>)
    requires
        old(store).wf(),
    ensures
        final(store).wf(),
        is_dir ==> match r {
            Ok(_) => !subtree_rename_collides(old(store)@, trim_slashes(from@), trim_slashes(to@))
                && final(store)@ == subtree_renamed(
                old(store)@,
                trim_slashes(from@),
                trim_slashes(to@),
            ),
            Err(e) => subtree_rename_collides(old(store)@, trim_slashes(from@), trim_slashes(to@))
                && final(store)@ == old(store)@,
        },
        !is_dir ==> match r {
            Ok(_) => !rename_collides(old(store)@, from@, to@) && final(store)@ == renamed(
                old(store)@,
                from@,
                to@,
            ),
            Err(e) => rename_collides(old(store)@, from@, to@) && final(store)@ == old(store)@,
        },
{
    if is_dir {
        move_meta_prefix(store, from, to)
    } else {
        move_meta(store, from, to)
    }
}

/// `path` is `dir` or lies inside it. A `dir` that ends in `/`, as the
/// root of a file system does, contains whatever continues it.
pub open spec fn within(path: Seq<char>, dir: Seq<char>) -> bool {
    if dir.len() > 0 && dir.last() == '/' {
        dir.is_prefix_of(path)
    } else {
        in_subtree(path, dir)
    }
}

/// Tells whether a resolved path is a directory or lies inside it. This
/// guards every access: a path that resolves to a place outside the library
/// root must not be served. It also tells a move of a directory into itself.
pub fn is_within(path: &str, dir: &str) -> (b: bool)
    ensures
        b == within(path@, dir@),
{
    let p = chars_of(path);
    let d = chars_of(dir);
    if d.len() > 0 && d[d.len() - 1] == '/' {
        if p.len() < d.len() {
            return false;
        }
        let head = vstd::slice::slice_subrange(p.as_slice(), 0, d.len());
        same_text(head, d.as_slice())
    } else {
        same_text(p.as_slice(), d.as_slice()) || lies_under(p.as_slice(), d.as_slice())
    }
}

} // verus!
