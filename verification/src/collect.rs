//! The tree collector's rules. The walk below the root is made elsewhere; what it
//! met is judged here: only regular files are packed, in the order in which the
//! walk met them, and one entry that could not be examined ends the run.
//!
//! The order is the walk's own. It is not sorted, and may differ from one
//! platform to the next.

use vstd::prelude::*;
use vstd::slice::slice_to_vec;
use crate::error::PakError;

verus! {

/// What kind of thing the walk met.
#[derive(Debug, Clone, Copy, PartialEq, Eq)]
pub enum EntryKind {
    File,
    Directory,
    Symlink,
    Other,
}

/// One step of the walk: an entry with its path and kind, or an entry that could
/// not be examined.
#[derive(Debug, Clone, PartialEq, Eq)]
pub enum WalkItem {
    Found { path: Vec<u8>, kind: EntryKind },
    Failed,
}

/// The paths that a list of paths stands for.
pub open spec fn path_views(paths: Seq<Vec<u8>>) -> Seq<Seq<u8>> {
    paths.map_values(|p: Vec<u8>| p@)
}

/// The paths of the regular files among `items`, in order.
pub open spec fn regular_files(items: Seq<WalkItem>) -> Seq<Seq<u8>>
    decreases items.len(),
{
    if items.len() == 0 {
        Seq::empty()
    } else {
        let before = regular_files(items.drop_last());
        match items.last() {
            WalkItem::Found { path, kind: EntryKind::File } => before.push(path@),
            _ => before,
        }
    }
}

/// Some step of the walk failed.
pub open spec fn walk_failed(items: Seq<WalkItem>) -> bool {
    exists|i: int| 0 <= i < items.len() && #[trigger] items[i] is Failed
}

/// Picks the files to pack from what a walk below `root` met. Fails with
/// `RootNotFound` where the root is no directory; else with
/// `DirectoryAccessError`, naming the root, where any step of the walk failed;
/// else returns the paths of the regular files, in the walk's order.
/// Directories, symbolic links and special files are left out.
pub fn collect(root: &[u8], root_is_dir: bool, items: &[WalkItem]) -> (r: Result<
    Vec<Vec<u8>>,
    PakError,
>)
    ensures
        !root_is_dir ==> (r matches Err(e) && e == PakError::RootNotFound),
        root_is_dir && walk_failed(items@) ==> (r matches Err(PakError::DirectoryAccessError(p))
            && p@ == root@),
        root_is_dir && !walk_failed(items@) ==> (r matches Ok(files) && path_views(files@)
            == regular_files(items@)),
{
    if !root_is_dir {
        return Err(PakError::RootNotFound);
    }
    let n = items.len();
    let mut files: Vec<Vec<u8>> = Vec::new();
    let mut i: usize = 0;
    proof {
        assert(path_views(files@) =~= regular_files(items@.take(0)));
    }
    while i < n
        invariant
            root_is_dir,
            i <= n == items.len(),
            forall|j: int| 0 <= j < i ==> !(#[trigger] items@[j] is Failed),
            path_views(files@) == regular_files(items@.take(i as int)),
        decreases n - i,
    {
        proof {
            assert(items@.take(i + 1).drop_last() =~= items@.take(i as int));
            assert(items@.take(i + 1).last() == items@[i as int]);
        }
        match &items[i] {
            WalkItem::Failed => {
                return Err(PakError::DirectoryAccessError(slice_to_vec(root)));
            },
            WalkItem::Found { path, kind } => {
                match kind {
                    EntryKind::File => {
                        let copy = slice_to_vec(path.as_slice());
                        proof {
                            assert(path_views(files@.push(copy)) =~= path_views(files@).push(
                                path@,
                            ));
                        }
                        files.push(copy);
                    },
                    _ => {},
                }
            },
        }
        i = i + 1;
    }
    proof {
        assert(items@.take(n as int) =~= items@);
    }
    Ok(files)
}

} // verus!
