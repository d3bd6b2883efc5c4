//! Workspace-root resolution.
//!
//! Starting from a path (from its containing directory when the path names a
//! file), walk the ancestor directories outward; the first directory holding
//! one of the configured marker names is the workspace root.  The file system
//! is supplied as data: the caller probes the finitely many candidate paths
//! and hands in which of them exist.

use vstd::prelude::*;

use crate::types::FsPath;

verus! {

/// The probed slice of the file system: every candidate path that exists,
/// and which of the probed paths are regular files.
#[derive(Debug)]
pub struct Fs {
    pub entries: Vec<FsPath>,
    pub files: Vec<FsPath>,
}

/// `p` exists on the probed file system.
pub open spec fn fs_exists(fs: Fs, p: Seq<Seq<char>>) -> bool {
    exists|i: int| 0 <= i < fs.entries@.len() && fs.entries@[i]@ == p
}

/// `p` exists and is a regular file.
pub open spec fn fs_is_file(fs: Fs, p: Seq<Seq<char>>) -> bool {
    exists|i: int| 0 <= i < fs.files@.len() && fs.files@[i]@ == p
}

/// Some marker name exists as an entry of the directory `dir`.
pub open spec fn has_marker(fs: Fs, dir: Seq<Seq<char>>, markers: Seq<Seq<char>>) -> bool {
    exists|k: int| 0 <= k < markers.len() && fs_exists(fs, dir.push(markers[k]))
}

/// The directory the ancestor walk starts from: a file starts from its
/// parent; the file-system root has no parent.
pub open spec fn start_dir(fs: Fs, cur: Seq<Seq<char>>) -> Option<Seq<Seq<char>>> {
    if fs_is_file(fs, cur) {
        if cur.len() == 0 {
            None
        } else {
            Some(cur.drop_last())
        }
    } else {
        Some(cur)
    }
}

/// `start.take(j)` is the nearest marked ancestor: it holds a marker and no
/// deeper ancestor (inclusive of `start` itself) does.
pub open spec fn root_at(fs: Fs, start: Seq<Seq<char>>, markers: Seq<Seq<char>>, j: int) -> bool {
    &&& 0 <= j <= start.len()
    &&& has_marker(fs, start.take(j), markers)
    &&& forall|j2: int| j < j2 <= start.len() ==> !has_marker(fs, start.take(j2), markers)
}

/// No ancestor of `start`, up to the file-system root, holds a marker.
pub open spec fn no_root(fs: Fs, start: Seq<Seq<char>>, markers: Seq<Seq<char>>) -> bool {
    forall|j: int| 0 <= j <= start.len() ==> !has_marker(fs, start.take(j), markers)
}

/// Character-for-character string equality.
fn string_eq(a: &String, b: &String) -> (r: bool)
    ensures
        r == (a@ == b@),
{
    a.eq(b)
}

/// Whether `entry` is exactly the path `dir[..j]` + `marker`.
fn entry_is_marker(entry: &FsPath, dir: &FsPath, j: usize, marker: &String) -> (r: bool)
    requires
        j <= dir.components@.len(),
    ensures
        r == (entry@ == dir@.take(j as int).push(marker@)),
{
    let n = entry.components.len();
    if n == 0 || n - 1 != j {
        assert(entry@.len() != dir@.take(j as int).push(marker@).len());
        return false;
    }
    let mut i: usize = 0;
    while i < j
        invariant
            0 <= i <= j,
            j + 1 == entry.components@.len(),
            j <= dir.components@.len(),
            forall|t: int| 0 <= t < i ==> entry@[t] == dir@[t],
        decreases j - i,
    {
        if !string_eq(&entry.components[i], &dir.components[i]) {
            assert(entry@[i as int] != dir@.take(j as int).push(marker@)[i as int]);
            return false;
        }
        i += 1;
    }
    if string_eq(&entry.components[j], marker) {
        assert(entry@ =~= dir@.take(j as int).push(marker@));
        true
    } else {
        assert(entry@[j as int] != dir@.take(j as int).push(marker@)[j as int]);
        false
    }
}

/// Whether `p` occurs in `list`, compared by components.
fn contains_path(list: &Vec<FsPath>, p: &FsPath) -> (r: bool)
    ensures
        r == exists|i: int| 0 <= i < list@.len() && list@[i]@ == p@,
{
    let mut i: usize = 0;
    while i < list.len()
        invariant
            0 <= i <= list@.len(),
            forall|t: int| 0 <= t < i ==> list@[t]@ != p@,
        decreases list@.len() - i,
    {
        if path_eq(&list[i], p) {
            return true;
        }
        i += 1;
    }
    false
}

/// Component-wise path equality.
fn path_eq(a: &FsPath, b: &FsPath) -> (r: bool)
    ensures
        r == (a@ == b@),
{
    if a.components.len() != b.components.len() {
        assert(a@.len() != b@.len());
        return false;
    }
    let n = a.components.len();
    let mut i: usize = 0;
    while i < n
        invariant
            0 <= i <= n,
            n == a.components@.len(),
            n == b.components@.len(),
            forall|t: int| 0 <= t < i ==> a@[t] == b@[t],
        decreases n - i,
    {
        if !string_eq(&a.components[i], &b.components[i]) {
            assert(a@[i as int] != b@[i as int]);
            return false;
        }
        i += 1;
    }
    assert(a@ =~= b@);
    true
}

/// Whether the directory `dir[..j]` holds one of the marker names.
fn dir_has_marker_at(fs: &Fs, dir: &FsPath, j: usize, markers: &Vec<String>) -> (r: bool)
    requires
        j <= dir.components@.len(),
    ensures
        r == has_marker(*fs, dir@.take(j as int), markers.deep_view()),
{
    let mut k: usize = 0;
    while k < markers.len()
        invariant
            0 <= k <= markers@.len(),
            j <= dir.components@.len(),
            forall|t: int| 0 <= t < k ==> !fs_exists(*fs, dir@.take(j as int).push(markers.deep_view()[t])),
        decreases markers@.len() - k,
    {
        let target_exists = exists_entry(fs, dir, j, &markers[k]);
        if target_exists {
            assert(fs_exists(*fs, dir@.take(j as int).push(markers.deep_view()[k as int])));
            return true;
        }
        k += 1;
    }
    false
}

/// Whether `dir[..j]` + `marker` exists on the probed file system.
fn exists_entry(fs: &Fs, dir: &FsPath, j: usize, marker: &String) -> (r: bool)
    requires
        j <= dir.components@.len(),
    ensures
        r == fs_exists(*fs, dir@.take(j as int).push(marker@)),
{
    let mut i: usize = 0;
    while i < fs.entries.len()
        invariant
            0 <= i <= fs.entries@.len(),
            j <= dir.components@.len(),
            forall|t: int| 0 <= t < i ==> fs.entries@[t]@ != dir@.take(j as int).push(marker@),
        decreases fs.entries@.len() - i,
    {
        if entry_is_marker(&fs.entries[i], dir, j, marker) {
            return true;
        }
        i += 1;
    }
    false
}

/// The first `j` components of `p`, as a path of its own.
fn path_prefix(p: &FsPath, j: usize) -> (r: FsPath)
    requires
        j <= p.components@.len(),
    ensures
        r@ == p@.take(j as int),
{
    let mut c: Vec<String> = Vec::new();
    let mut i: usize = 0;
    while i < j
        invariant
            0 <= i <= j,
            j <= p.components@.len(),
            c@ =~= p.components@.take(i as int),
        decreases j - i,
    {
        c.push(p.components[i].clone());
        i += 1;
    }
    let r = FsPath { components: c };
    assert(r@ =~= p@.take(j as int));
    r
}

/// Resolve the workspace root for `cur_path`: the nearest ancestor directory
/// (inclusive of the starting directory) holding one of the marker names, or
/// `None` when no ancestor up to the file-system root does.
pub fn find_root_path(cur_path: &FsPath, root_markers: &Vec<String>, fs: &Fs) -> (r: Option<FsPath>)
    ensures
        match start_dir(*fs, cur_path@) {
            None => r is None,
            Some(start) => {
                &&& forall|j: int|
                    root_at(*fs, start, root_markers.deep_view(), j) ==> (r matches Some(root)
                        && root@ == start.take(j))
                &&& no_root(*fs, start, root_markers.deep_view()) ==> r is None
            },
        },
{
    let is_file = contains_path(&fs.files, cur_path);
    let mut n: usize = cur_path.components.len();
    if is_file {
        if n == 0 {
            return None;
        }
        n = n - 1;
    }
    let ghost start = start_dir(*fs, cur_path@).unwrap();
    proof {
        assert(start =~= cur_path@.take(n as int));
    }
    let mut j: usize = n;
    loop
        invariant
            0 <= j <= n,
            n <= cur_path.components@.len(),
            start == cur_path@.take(n as int),
            start_dir(*fs, cur_path@) == Some(start),
            forall|j2: int| j < j2 <= n ==> !has_marker(*fs, start.take(j2), root_markers.deep_view()),
        decreases j,
    {
        proof {
            assert(start.take(j as int) =~= cur_path@.take(j as int));
        }
        if dir_has_marker_at(fs, cur_path, j, root_markers) {
            let root = path_prefix(cur_path, j);
            proof {
                assert(root_at(*fs, start, root_markers.deep_view(), j as int));
                assert forall|j1: int|
                    root_at(*fs, start, root_markers.deep_view(), j1) implies j1 == j as int by {
                    if j1 < j as int {
                        assert(has_marker(*fs, start.take(j as int), root_markers.deep_view()));
                    }
                }
                assert(root@ == start.take(j as int));
            }
            return Some(root);
        }
        if j == 0 {
            proof {
                assert(no_root(*fs, start, root_markers.deep_view())) by {
                    assert forall|j2: int| 0 <= j2 <= start.len() implies !has_marker(
                        *fs,
                        start.take(j2),
                        root_markers.deep_view(),
                    ) by {
                        if j2 == 0 {
                            assert(start.take(0) =~= cur_path@.take(0));
                        }
                    }
                }
                assert forall|j1: int| !root_at(*fs, start, root_markers.deep_view(), j1) by {}
            }
            return None;
        }
        j = j - 1;
    }
}

} // verus!
