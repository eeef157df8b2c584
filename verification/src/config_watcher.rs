//! When a change of the configuration file counts.

use vstd::prelude::*;

verus! {

/// For how long changes after one that counted are taken for the same, in
/// milliseconds.
pub const DEFAULT_DEBOUNCE_MS: u64 = 200;

/// Nanoseconds of that time.
pub const DEBOUNCE_NS: u128 = 200_000_000;

/// What happened to a file.
#[derive(Debug, Clone, Copy, PartialEq, Eq, Structural)]
pub enum ChangeKind {
    /// It was changed.
    Modified,
    /// It came into being.
    Created,
    /// It was removed.
    Removed,
    /// Something else.
    Other,
}

/// A path that a change is about, held against the file that is watched.
#[derive(Debug)]
pub struct ChangedPath {
    /// Whether it is spelled as the watched one is.
    pub same: bool,
    /// Whether the name of the file is the same.
    pub same_name: bool,
    /// The directory that it is really in, as the system spells it, where that
    /// is known.
    pub parent: Option<Vec<u8>>,
}

/// Whether a path is that of the watched file.
pub open spec fn is_watched(path: ChangedPath, parent: Option<Seq<u8>>) -> bool {
    path.same || (path.same_name && path.parent is Some && parent is Some && path.parent->Some_0@
        == parent->Some_0)
}

/// Whether one of several paths is that of the watched file.
pub open spec fn any_watched(paths: Seq<ChangedPath>, parent: Option<Seq<u8>>) -> bool {
    exists|i: int| 0 <= i < paths.len() && is_watched(#[trigger] paths[i], parent)
}

/// A directory that may not be known.
pub open spec fn spelled(parent: Option<Vec<u8>>) -> Option<Seq<u8>> {
    match parent {
        Some(p) => Some(p@),
        None => None,
    }
}

/// Whether two directories are spelled the same.
fn same_bytes(a: &Vec<u8>, b: &Vec<u8>) -> (r: bool)
    ensures
        r == (a@ == b@),
{
    if a.len() != b.len() {
        return false;
    }
    let mut i: usize = 0;
    while i < a.len()
        invariant
            i <= a@.len(),
            a@.len() == b@.len(),
            forall|k: int| 0 <= k < i ==> a@[k] == b@[k],
        decreases a@.len() - i,
    {
        if a[i] != b[i] {
            return false;
        }
        i = i + 1;
    }
    assert(a@ =~= b@);
    true
}

/// Whether a path is that of the watched file, which is really in `parent`.
fn is_target(path: &ChangedPath, parent: &Option<Vec<u8>>) -> (r: bool)
    ensures
        r == is_watched(*path, spelled(*parent)),
{
    if path.same {
        return true;
    }
    if !path.same_name {
        return false;
    }
    match (&path.parent, parent) {
        (Some(a), Some(b)) => same_bytes(a, b),
        _ => false,
    }
}

/// Whether a change is about the watched file, which is really in `parent`.
pub fn is_relevant(
    kind: ChangeKind,
    paths: &Vec<ChangedPath>,
    parent: &Option<Vec<u8>>,
) -> (r: bool)
    ensures
        r == (kind != ChangeKind::Other && any_watched(paths@, spelled(*parent))),
{
    let ghost home = spelled(*parent);
    if kind == ChangeKind::Other {
        return false;
    }
    let mut i: usize = 0;
    while i < paths.len()
        invariant
            i <= paths@.len(),
            kind != ChangeKind::Other,
            home == spelled(*parent),
            forall|k: int| 0 <= k < i ==> !is_watched(#[trigger] paths@[k], home),
        decreases paths@.len() - i,
    {
        if is_target(&paths[i], parent) {
            assert(is_watched(paths@[i as int], home));
            return true;
        }
        i = i + 1;
    }
    false
}

/// Whether a change counts: it is the first, or enough time went by since the
/// last that counted, in nanoseconds.
pub fn counts(since_last_ns: Option<u128>) -> (r: bool)
    ensures
        r == (match since_last_ns {
            Some(ns) => ns >= DEBOUNCE_NS,
            None => true,
        }),
{
    match since_last_ns {
        Some(ns) => ns >= DEBOUNCE_NS,
        None => true,
    }
}

/// The file is known by its path, or by its name in the directory that it is
/// really in. A path that is spelled otherwise and has another name, is in
/// another directory or in one that is not known is not that of the file.
pub proof fn law_the_file_is_known_by_name_and_place(path: ChangedPath, home: Seq<u8>)
    ensures
        path.same ==> is_watched(path, None) && is_watched(path, Some(home)),
        !path.same ==> !is_watched(path, None),
        !path.same && !path.same_name ==> !is_watched(path, Some(home)),
        !path.same && path.same_name ==> (path.parent matches Some(p) ==> (is_watched(
            path,
            Some(home),
        ) <==> p@ == home)),
        !path.same && path.parent is None ==> !is_watched(path, Some(home)),
{
}

/// Of several paths one is enough.
pub proof fn law_one_watched_path_is_enough(paths: Seq<ChangedPath>, home: Option<Seq<u8>>, i: int)
    requires
        0 <= i < paths.len(),
    ensures
        is_watched(paths[i], home) ==> any_watched(paths, home),
        (forall|j: int| 0 <= j < paths.len() ==> !is_watched(#[trigger] paths[j], home))
            ==> !any_watched(paths, home),
{
}

/// The time for which changes count once is the same in both units.
pub proof fn law_both_units_say_the_same()
    ensures
        DEBOUNCE_NS == DEFAULT_DEBOUNCE_MS * 1_000_000,
        DEFAULT_DEBOUNCE_MS == 200,
{
}

/// The first change counts, and another one once 200 milliseconds went by.
pub proof fn law_changes_count_again_after_a_while(since_last_ns: Option<u128>, r: bool)
    requires
        call_ensures(counts, (since_last_ns,), r),
    ensures
        since_last_ns is None ==> r,
        since_last_ns matches Some(ns) ==> (r <==> ns >= 200_000_000),
{
}

/// A change that is none of the three that matter is passed over, and so is one
/// that is about other files only.
pub proof fn law_only_changes_of_the_file_are_relevant(
    kind: ChangeKind,
    paths: Vec<ChangedPath>,
    parent: Option<Vec<u8>>,
    r: bool,
    i: int,
)
    requires
        call_ensures(is_relevant, (kind, &paths, &parent), r),
    ensures
        kind == ChangeKind::Other ==> !r,
        kind != ChangeKind::Other && 0 <= i < paths@.len() && paths@[i].same ==> r,
        paths@.len() == 0 ==> !r,
        (forall|j: int|
            0 <= j < paths@.len() ==> !(#[trigger] paths@[j]).same && !paths@[j].same_name) ==> !r,
{
    if kind != ChangeKind::Other && 0 <= i < paths@.len() && paths@[i].same {
        assert(is_watched(paths@[i], spelled(parent)));
    }
}

} // verus!
