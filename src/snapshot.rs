//! The snapshot engine: turns one walk of the working directory into the
//! entries of a new tree, under the encoding and size policies.

use vstd::prelude::*;

use crate::text::{
    decode_utf8, lemma_path_le_transitive, lemma_path_lt_asymmetric, lemma_path_lt_total, path_less,
    path_lt, utf8_text,
};

verus! {

/// The type of a file in the working copy.
#[derive(Clone, Copy, Debug, PartialEq, Eq, Structural)]
pub enum FileKind {
    Normal,
    Executable,
    Symlink,
}

/// What a tree records of one file: its type, size and modification time,
/// which together tell whether the file changed, and the id of its content in
/// the backend.
#[derive(Clone, Copy, Debug, PartialEq, Eq, Structural)]
pub struct FileState {
    pub kind: FileKind,
    pub size: u64,
    pub mtime: i64,
    pub content_id: u64,
}

/// A file recorded in a tree, under its path.
#[derive(Clone, Debug, PartialEq, Eq)]
pub struct TrackedFile {
    pub path: String,
    pub state: FileState,
}

/// One file as the walk of the working directory found it: its path and,
/// for a symlink, its target, both as raw bytes.
#[derive(Clone, Debug, PartialEq, Eq)]
pub struct ScannedEntry {
    pub path: Vec<u8>,
    pub state: FileState,
    pub symlink_target: Vec<u8>,
}

/// An error while snapshotting the working copy.
#[allow(inconsistent_fields)]
#[derive(Clone, Debug, PartialEq, Eq)]
pub enum SnapshotError {
    /// A path in the working copy was not valid UTF-8.
    InvalidUtf8Path { path: Vec<u8> },
    /// A symlink's target was not valid UTF-8; its path is.
    InvalidUtf8SymlinkTarget { path: String, target: Vec<u8> },
    /// Reading or writing from the commit backend failed.
    InternalBackendError { message: String },
    /// A file that was not tracked before is larger than the configured
    /// maximum for new files.
    NewFileTooLarge { path: String, size: u64, max_size: u64 },
    /// Another process updated the working copy after the lock was taken.
    ConcurrentUpdate { expected_operation_id: String, found_operation_id: String },
    /// Some other error happened while snapshotting the working copy.
    Other { message: String, cause: String },
}

/// A `SnapshotError` with its fields as sequences.
#[allow(inconsistent_fields)]
pub enum SnapshotErrorView {
    InvalidUtf8Path { path: Seq<u8> },
    InvalidUtf8SymlinkTarget { path: Seq<char>, target: Seq<u8> },
    InternalBackendError { message: Seq<char> },
    NewFileTooLarge { path: Seq<char>, size: u64, max_size: u64 },
    ConcurrentUpdate { expected_operation_id: Seq<char>, found_operation_id: Seq<char> },
    Other { message: Seq<char>, cause: Seq<char> },
}

impl View for SnapshotError {
    type V = SnapshotErrorView;

    open spec fn view(&self) -> SnapshotErrorView {
        match self {
            SnapshotError::InvalidUtf8Path { path } => SnapshotErrorView::InvalidUtf8Path {
                path: path@,
            },
            SnapshotError::InvalidUtf8SymlinkTarget { path, target } => {
                SnapshotErrorView::InvalidUtf8SymlinkTarget { path: path@, target: target@ }
            },
            SnapshotError::InternalBackendError { message } => {
                SnapshotErrorView::InternalBackendError { message: message@ }
            },
            SnapshotError::NewFileTooLarge { path, size, max_size } => {
                SnapshotErrorView::NewFileTooLarge { path: path@, size: *size, max_size: *max_size }
            },
            SnapshotError::ConcurrentUpdate { expected_operation_id, found_operation_id } => {
                SnapshotErrorView::ConcurrentUpdate {
                    expected_operation_id: expected_operation_id@,
                    found_operation_id: found_operation_id@,
                }
            },
            SnapshotError::Other { message, cause } => SnapshotErrorView::Other {
                message: message@,
                cause: cause@,
            },
        }
    }
}

/// Two states describe the same file on disk: same type, size and
/// modification time.
pub open spec fn same_metadata(a: FileState, b: FileState) -> bool {
    a.kind == b.kind && a.size == b.size && a.mtime == b.mtime
}

/// The state that `tree` records under `path`; of several entries under one
/// path, the last counts.
pub open spec fn tracked_state(tree: Seq<TrackedFile>, path: Seq<char>) -> Option<FileState>
    decreases tree.len(),
{
    if tree.len() == 0 {
        None
    } else if tree.last().path@ == path {
        Some(tree.last().state)
    } else {
        tracked_state(tree.drop_last(), path)
    }
}

/// What the new tree records for a file found on disk in state `found`: the
/// old entry when the file is unchanged, else what was found.
pub open spec fn carried_state(old: Seq<TrackedFile>, path: Seq<char>, found: FileState) -> FileState {
    match tracked_state(old, path) {
        Some(prev) => if same_metadata(prev, found) {
            prev
        } else {
            found
        },
        None => found,
    }
}

/// Why the entry `e` of a walk aborts a snapshot over the tree `old`, if it
/// does: its path is not text; it is a symlink whose target is not text; or
/// it is a file or symlink that `old` does not track and that is larger than
/// `max`.
pub open spec fn entry_error(old: Seq<TrackedFile>, e: ScannedEntry, max: u64) -> Option<SnapshotErrorView> {
    match utf8_text(e.path@) {
        None => Some(SnapshotErrorView::InvalidUtf8Path { path: e.path@ }),
        Some(p) => if e.state.kind == FileKind::Symlink && utf8_text(e.symlink_target@) is None {
            Some(SnapshotErrorView::InvalidUtf8SymlinkTarget { path: p, target: e.symlink_target@ })
        } else if tracked_state(old, p) is None && e.state.size > max {
            Some(SnapshotErrorView::NewFileTooLarge { path: p, size: e.state.size, max_size: max })
        } else {
            None
        },
    }
}

/// `t` is what the new tree holds for the walk entry `e`.
pub open spec fn is_new_entry(t: TrackedFile, old: Seq<TrackedFile>, e: ScannedEntry) -> bool {
    &&& utf8_text(e.path@) == Some(t.path@)
    &&& t.state == carried_state(old, t.path@, e.state)
}

/// No entry of the walk aborts the snapshot.
pub open spec fn snapshot_accepts(old: Seq<TrackedFile>, scan: Seq<ScannedEntry>, max: u64) -> bool {
    forall|i: int| 0 <= i < scan.len() ==> (#[trigger] entry_error(old, scan[i], max)) is None
}

/// A tree entry as a path and a state.
pub open spec fn entry_view(t: TrackedFile) -> (Seq<char>, FileState) {
    (t.path@, t.state)
}

/// The entries of a tree as paths and states, in order.
pub open spec fn tree_view(t: Seq<TrackedFile>) -> Seq<(Seq<char>, FileState)> {
    t.map_values(|f: TrackedFile| entry_view(f))
}

/// What the new tree records for the walk entry `e`, once accepted.
pub open spec fn new_entry(old: Seq<TrackedFile>, e: ScannedEntry) -> (Seq<char>, FileState) {
    let p = utf8_text(e.path@).unwrap();
    (p, carried_state(old, p, e.state))
}

/// What the new tree records for each entry of the walk, in walk order.
pub open spec fn walk_entries(old: Seq<TrackedFile>, scan: Seq<ScannedEntry>) -> Seq<(Seq<char>, FileState)> {
    scan.map_values(|e: ScannedEntry| new_entry(old, e))
}

/// The entries are ordered by path.
pub open spec fn sorted_by_path(v: Seq<(Seq<char>, FileState)>) -> bool {
    forall|i: int, j: int| 0 <= i < j < v.len() ==> !path_lt(#[trigger] v[j].0, #[trigger] v[i].0)
}

/// `new` is the tree that a snapshot of `scan` over `old` produces: one entry
/// for each entry of the walk, ordered by path whatever the walk's order.
pub open spec fn is_snapshot_of(new: Seq<TrackedFile>, old: Seq<TrackedFile>, scan: Seq<ScannedEntry>) -> bool {
    &&& sorted_by_path(tree_view(new))
    &&& tree_view(new).to_multiset() == walk_entries(old, scan).to_multiset()
}

/// Entry `i` of the walk is the first that aborts the snapshot, with `err`.
pub open spec fn is_first_error(
    old: Seq<TrackedFile>,
    scan: Seq<ScannedEntry>,
    max: u64,
    i: int,
    err: SnapshotErrorView,
) -> bool {
    &&& 0 <= i < scan.len()
    &&& entry_error(old, scan[i], max) == Some(err)
    &&& forall|j: int| 0 <= j < i ==> (#[trigger] entry_error(old, scan[j], max)) is None
}

/// The paths of the walk, read as text, are pairwise distinct, as on any
/// file system.
pub open spec fn distinct_paths(scan: Seq<ScannedEntry>) -> bool {
    forall|i: int, j: int|
        0 <= i < scan.len() && 0 <= j < scan.len() && i != j && utf8_text(scan[i].path@) is Some
            ==> #[trigger] utf8_text(scan[i].path@) != #[trigger] utf8_text(scan[j].path@)
}

/// Looks up the state that `tree` records under `path`.
pub fn lookup_state(tree: &Vec<TrackedFile>, path: &String) -> (r: Option<FileState>)
    ensures
        r == tracked_state(tree@, path@),
{
    let mut i: usize = tree.len();
    assert(tree@.subrange(0, i as int) =~= tree@);
    while i > 0
        invariant
            i <= tree@.len(),
            tracked_state(tree@, path@) == tracked_state(tree@.subrange(0, i as int), path@),
        decreases i,
    {
        let ghost prefix = tree@.subrange(0, i as int);
        assert(prefix.drop_last() =~= tree@.subrange(0, i - 1));
        if tree[i - 1].path == *path {
            return Some(tree[i - 1].state);
        }
        i = i - 1;
    }
    None
}

fn copy_bytes(b: &Vec<u8>) -> (r: Vec<u8>)
    ensures
        r@ == b@,
{
    let r = b.clone();
    assert(r@ =~= b@);
    r
}

/// Checks one entry of the walk against the policies and gives what the new
/// tree records for it.
pub fn snapshot_entry(old: &Vec<TrackedFile>, e: &ScannedEntry, max_new_file_size: u64) -> (r: Result<TrackedFile, SnapshotError>)
    ensures
        match r {
            Ok(t) => entry_error(old@, *e, max_new_file_size) is None && is_new_entry(t, old@, *e),
            Err(err) => entry_error(old@, *e, max_new_file_size) == Some(err@),
        },
{
    let path = match decode_utf8(&e.path) {
        Some(p) => p,
        None => {
            return Err(SnapshotError::InvalidUtf8Path { path: copy_bytes(&e.path) });
        },
    };
    let prev = lookup_state(old, &path);
    if e.state.kind == FileKind::Symlink && decode_utf8(&e.symlink_target).is_none() {
        return Err(
            SnapshotError::InvalidUtf8SymlinkTarget { path, target: copy_bytes(&e.symlink_target) },
        );
    }
    if prev.is_none() && e.state.size > max_new_file_size {
        return Err(
            SnapshotError::NewFileTooLarge {
                path,
                size: e.state.size,
                max_size: max_new_file_size,
            },
        );
    }
    let state = match prev {
        Some(p) => if p.kind == e.state.kind && p.size == e.state.size && p.mtime == e.state.mtime {
            p
        } else {
            e.state
        },
        None => e.state,
    };
    Ok(TrackedFile { path, state })
}

/// Inserts `t` into a tree ordered by path, after the entries whose path
/// comes before its own.
pub fn insert_by_path(tree: &mut Vec<TrackedFile>, t: TrackedFile)
    requires
        sorted_by_path(tree_view(old(tree)@)),
    ensures
        sorted_by_path(tree_view(final(tree)@)),
        tree_view(final(tree)@).to_multiset() == tree_view(old(tree)@).to_multiset().insert(entry_view(t)),
{
    let ghost v = tree_view(tree@);
    let ghost x = entry_view(t);
    let mut k: usize = 0;
    while k < tree.len() && path_less(tree[k].path.as_str(), t.path.as_str())
        invariant
            v == tree_view(tree@),
            x == entry_view(t),
            k <= tree@.len(),
            forall|j: int| 0 <= j < k ==> path_lt((#[trigger] v[j]).0, x.0),
        decreases tree.len() - k,
    {
        assert(v[k as int] == entry_view(tree@[k as int]));
        k = k + 1;
    }
    tree.insert(k, t);
    proof {
        let w = tree_view(tree@);
        assert(w =~= v.insert(k as int, x));
        assert forall|i: int, j: int| 0 <= i < j < w.len() implies !path_lt(#[trigger] w[j].0, #[trigger] w[i].0) by {
            if i == k {
                lemma_path_lt_asymmetric(v[k as int].0, v[k as int].0);
                lemma_path_le_transitive(x.0, v[k as int].0, v[j - 1].0);
            } else if j == k {
                lemma_path_lt_asymmetric(v[i].0, x.0);
            } else if i > k {
                assert(w[i] == v[i - 1] && w[j] == v[j - 1]);
            } else if j > k {
                assert(w[i] == v[i] && w[j] == v[j - 1]);
            } else {
                assert(w[i] == v[i] && w[j] == v[j]);
            }
        }
        vstd::seq_lib::to_multiset_insert(v, k as int, x);
    }
}

/// Builds the new tree from one walk of the working directory, ordered by
/// path, or reports the first entry that aborts the snapshot. Nothing is
/// produced on failure. `progress` is told each path once it is accepted,
/// before the next entry is looked at; it cannot change the outcome.
pub fn snapshot_tree<F: Fn(&String)>(
    old: &Vec<TrackedFile>,
    scan: &Vec<ScannedEntry>,
    max_new_file_size: u64,
    progress: &F,
) -> (r: Result<Vec<TrackedFile>, SnapshotError>)
    requires
        forall|p: &String| #[trigger] progress.requires((p,)),
    ensures
        r is Ok <==> snapshot_accepts(old@, scan@, max_new_file_size),
        match r {
            Ok(t) => is_snapshot_of(t@, old@, scan@),
            Err(err) => exists|i: int| is_first_error(old@, scan@, max_new_file_size, i, err@),
        },
{
    let mut out: Vec<TrackedFile> = Vec::new();
    let mut i: usize = 0;
    assert(walk_entries(old@, scan@.subrange(0, 0)) =~= Seq::empty());
    assert(tree_view(out@) =~= Seq::empty());
    while i < scan.len()
        invariant
            forall|p: &String| #[trigger] progress.requires((p,)),
            i <= scan@.len(),
            forall|j: int| 0 <= j < i ==> (#[trigger] entry_error(old@, scan@[j], max_new_file_size)) is None,
            sorted_by_path(tree_view(out@)),
            tree_view(out@).to_multiset() == walk_entries(old@, scan@.subrange(0, i as int)).to_multiset(),
        decreases scan.len() - i,
    {
        match snapshot_entry(old, &scan[i], max_new_file_size) {
            Ok(t) => {
                progress(&t.path);
                proof {
                    let before = walk_entries(old@, scan@.subrange(0, i as int));
                    assert(walk_entries(old@, scan@.subrange(0, i + 1)) =~= before.push(entry_view(t)));
                    vstd::seq_lib::to_multiset_build(before, entry_view(t));
                }
                insert_by_path(&mut out, t);
            },
            Err(err) => {
                assert(is_first_error(old@, scan@, max_new_file_size, i as int, err@));
                return Err(err);
            },
        }
        i = i + 1;
    }
    assert(scan@.subrange(0, i as int) =~= scan@);
    Ok(out)
}

proof fn lemma_tracked_state_all(tree: Seq<TrackedFile>, path: Seq<char>, s: FileState, k: int)
    requires
        0 <= k < tree.len(),
        tree[k].path@ == path,
        forall|j: int| 0 <= j < tree.len() && (#[trigger] tree[j]).path@ == path ==> tree[j].state == s,
    ensures
        tracked_state(tree, path) == Some(s),
    decreases tree.len(),
{
    if tree.last().path@ != path {
        let rest = tree.drop_last();
        assert(rest[k] == tree[k]);
        assert forall|j: int| 0 <= j < rest.len() && (#[trigger] rest[j]).path@ == path implies rest[j].state == s by {
            assert(rest[j] == tree[j]);
        }
        lemma_tracked_state_all(rest, path, s, k);
    }
}

/// Two sequences ordered by path, with the same elements, in which equal
/// paths come with equal states, are equal.
proof fn lemma_sorted_unique(a: Seq<(Seq<char>, FileState)>, b: Seq<(Seq<char>, FileState)>)
    requires
        sorted_by_path(a),
        sorted_by_path(b),
        a.to_multiset() == b.to_multiset(),
        forall|i: int, j: int| 0 <= i < a.len() && 0 <= j < a.len() && (#[trigger] a[i]).0 == (#[trigger] a[j]).0 ==> a[i] == a[j],
    ensures
        a == b,
    decreases a.len(),
{
    broadcast use vstd::seq_lib::group_to_multiset_ensures;

    assert(a.len() == a.to_multiset().len());
    assert(b.len() == b.to_multiset().len());
    if a.len() == 0 {
        assert(a =~= b);
    } else {
        assert(a.contains(a[0]));
        assert(a.to_multiset().count(a[0]) > 0);
        assert(b.contains(a[0]));
        let k = choose|k: int| 0 <= k < b.len() && b[k] == a[0];
        assert(b.contains(b[0]));
        assert(b.to_multiset().count(b[0]) > 0);
        assert(a.contains(b[0]));
        let j = choose|j: int| 0 <= j < a.len() && a[j] == b[0];
        if a[0].0 != b[0].0 {
            lemma_path_lt_total(a[0].0, b[0].0);
            if path_lt(a[0].0, b[0].0) {
                assert(k != 0);
                assert(!path_lt(b[k].0, b[0].0));
            } else {
                assert(j != 0);
                assert(!path_lt(a[j].0, a[0].0));
            }
        }
        assert(a[0] == b[0]);
        let ra = a.drop_first();
        let rb = b.drop_first();
        assert(a.remove(0) =~= ra);
        assert(b.remove(0) =~= rb);
        assert(ra.to_multiset() == rb.to_multiset());
        assert forall|i: int, l: int| 0 <= i < l < ra.len() implies !path_lt(#[trigger] ra[l].0, #[trigger] ra[i].0) by {
            assert(ra[l] == a[l + 1] && ra[i] == a[i + 1]);
        }
        assert forall|i: int, l: int| 0 <= i < l < rb.len() implies !path_lt(#[trigger] rb[l].0, #[trigger] rb[i].0) by {
            assert(rb[l] == b[l + 1] && rb[i] == b[i + 1]);
        }
        assert forall|i: int, l: int| 0 <= i < ra.len() && 0 <= l < ra.len() && (#[trigger] ra[i]).0 == (#[trigger] ra[l]).0 implies ra[i] == ra[l] by {
            assert(ra[l] == a[l + 1] && ra[i] == a[i + 1]);
        }
        lemma_sorted_unique(ra, rb);
        assert(a =~= b) by {
            assert forall|i: int| 0 <= i < a.len() implies a[i] == b[i] by {
                if i > 0 {
                    assert(a[i] == ra[i - 1] && b[i] == rb[i - 1]);
                }
            }
        }
    }
}

/// Each entry of a snapshot comes from an entry of the walk.
proof fn lemma_entry_from_walk(first: Seq<TrackedFile>, old: Seq<TrackedFile>, scan: Seq<ScannedEntry>, k: int) -> (i: int)
    requires
        is_snapshot_of(first, old, scan),
        0 <= k < first.len(),
    ensures
        0 <= i < scan.len(),
        walk_entries(old, scan)[i] == tree_view(first)[k],
{
    broadcast use vstd::seq_lib::group_to_multiset_ensures;

    let fv = tree_view(first);
    let wv = walk_entries(old, scan);
    assert(fv.contains(fv[k]));
    assert(fv.to_multiset().count(fv[k]) > 0);
    assert(wv.contains(fv[k]));
    choose|i: int| 0 <= i < wv.len() && wv[i] == fv[k]
}

/// In a snapshot of a walk with distinct paths, entries with equal paths are
/// equal.
proof fn lemma_equal_paths_equal_entries(first: Seq<TrackedFile>, old: Seq<TrackedFile>, scan: Seq<ScannedEntry>, max: u64)
    requires
        distinct_paths(scan),
        snapshot_accepts(old, scan, max),
        is_snapshot_of(first, old, scan),
    ensures
        forall|k: int, l: int|
            0 <= k < tree_view(first).len() && 0 <= l < tree_view(first).len()
                && (#[trigger] tree_view(first)[k]).0 == (#[trigger] tree_view(first)[l]).0
                ==> tree_view(first)[k] == tree_view(first)[l],
{
    let fv = tree_view(first);
    assert forall|k: int, l: int| 0 <= k < fv.len() && 0 <= l < fv.len() && (#[trigger] fv[k]).0 == (#[trigger] fv[l]).0 implies fv[k] == fv[l] by {
        let i = lemma_entry_from_walk(first, old, scan, k);
        let j = lemma_entry_from_walk(first, old, scan, l);
        assert(entry_error(old, scan[i], max) is None);
        assert(entry_error(old, scan[j], max) is None);
        if i != j {
            assert(utf8_text(scan[i].path@) != utf8_text(scan[j].path@));
        }
    }
}

proof fn lemma_map_multiset(s1: Seq<ScannedEntry>, s2: Seq<ScannedEntry>, old: Seq<TrackedFile>)
    requires
        s1.to_multiset() == s2.to_multiset(),
    ensures
        walk_entries(old, s1).to_multiset() == walk_entries(old, s2).to_multiset(),
    decreases s1.len(),
{
    broadcast use vstd::seq_lib::group_to_multiset_ensures;

    assert(s1.len() == s1.to_multiset().len());
    assert(s2.len() == s2.to_multiset().len());
    if s1.len() == 0 {
        assert(walk_entries(old, s1) =~= Seq::empty());
        assert(walk_entries(old, s2) =~= Seq::empty());
    } else {
        let x = s1[0];
        assert(s1.contains(x));
        assert(s1.to_multiset().count(x) > 0);
        assert(s2.contains(x));
        let k = choose|k: int| 0 <= k < s2.len() && s2[k] == x;
        let r1 = s1.drop_first();
        let r2 = s2.remove(k);
        assert(s1.remove(0) =~= r1);
        lemma_map_multiset(r1, r2, old);
        let y = new_entry(old, x);
        assert(walk_entries(old, s1) =~= walk_entries(old, r1).insert(0, y));
        assert(walk_entries(old, s2) =~= walk_entries(old, r2).insert(k, y));
        vstd::seq_lib::to_multiset_insert(walk_entries(old, r1), 0, y);
        vstd::seq_lib::to_multiset_insert(walk_entries(old, r2), k, y);
    }
}

/// The new tree does not depend on the order of the walk: two walks of the
/// same entries, in any order, give the same tree.
pub proof fn lemma_scan_order_irrelevant(
    old: Seq<TrackedFile>,
    scan1: Seq<ScannedEntry>,
    scan2: Seq<ScannedEntry>,
    max: u64,
    t1: Seq<TrackedFile>,
    t2: Seq<TrackedFile>,
)
    requires
        distinct_paths(scan1),
        scan1.to_multiset() == scan2.to_multiset(),
        snapshot_accepts(old, scan1, max),
        is_snapshot_of(t1, old, scan1),
        is_snapshot_of(t2, old, scan2),
    ensures
        tree_view(t1) == tree_view(t2),
{
    lemma_map_multiset(scan1, scan2, old);
    lemma_equal_paths_equal_entries(t1, old, scan1, max);
    lemma_sorted_unique(tree_view(t1), tree_view(t2));
}

/// Snapshotting a second time, with nothing changed on disk, succeeds and
/// yields the same tree as the first time.
pub proof fn lemma_snapshot_idempotent(
    old: Seq<TrackedFile>,
    scan: Seq<ScannedEntry>,
    max: u64,
    first: Seq<TrackedFile>,
)
    requires
        distinct_paths(scan),
        snapshot_accepts(old, scan, max),
        is_snapshot_of(first, old, scan),
    ensures
        snapshot_accepts(first, scan, max),
        is_snapshot_of(first, first, scan),
        forall|second: Seq<TrackedFile>| is_snapshot_of(second, first, scan) ==> tree_view(second) == tree_view(first),
{
    broadcast use vstd::seq_lib::group_to_multiset_ensures;

    let fv = tree_view(first);
    let wv = walk_entries(old, scan);
    lemma_equal_paths_equal_entries(first, old, scan, max);
    assert forall|i: int|
        #![trigger entry_error(first, scan[i], max)]
        #![trigger new_entry(first, scan[i])]
        0 <= i < scan.len() implies entry_error(first, scan[i], max) is None
        && new_entry(first, scan[i]) == wv[i] by {
        assert(entry_error(old, scan[i], max) is None);
        assert(wv[i] == new_entry(old, scan[i]));
        assert(wv.contains(wv[i]));
        assert(wv.to_multiset().count(wv[i]) > 0);
        assert(fv.contains(wv[i]));
        let k = choose|k: int| 0 <= k < fv.len() && fv[k] == wv[i];
        assert(fv[k] == entry_view(first[k]));
        assert forall|l: int| 0 <= l < first.len() && (#[trigger] first[l]).path@ == wv[i].0 implies first[l].state == wv[i].1 by {
            assert(fv[l] == entry_view(first[l]));
            assert(fv[k].0 == fv[l].0);
        }
        lemma_tracked_state_all(first, wv[i].0, wv[i].1, k);
    }
    assert(walk_entries(first, scan) =~= wv);
    assert forall|second: Seq<TrackedFile>| is_snapshot_of(second, first, scan) implies tree_view(second) == tree_view(first) by {
        lemma_sorted_unique(fv, tree_view(second));
    }
}

/// A file that was not tracked, with a path (and, for a symlink, a target)
/// that is text, is accepted at exactly the maximum size for new files, and
/// rejected one byte above it, with an error that names the file, its size
/// and the maximum.
pub proof fn lemma_new_file_size_threshold(old: Seq<TrackedFile>, e: ScannedEntry, max: u64)
    requires
        utf8_text(e.path@) is Some,
        e.state.kind == FileKind::Symlink ==> utf8_text(e.symlink_target@) is Some,
        tracked_state(old, utf8_text(e.path@).unwrap()) is None,
    ensures
        e.state.size == max ==> entry_error(old, e, max) is None,
        e.state.size == max + 1 ==> entry_error(old, e, max) == Some(
            SnapshotErrorView::NewFileTooLarge { path: utf8_text(e.path@).unwrap(), size: e.state.size, max_size: max },
        ),
{
}

/// A file that the old tree tracks, with a path (and, for a symlink, a
/// target) that is text, is accepted whatever its size, and the new tree
/// keeps it under its path with its current type and size.
pub proof fn lemma_tracked_file_exempt(old: Seq<TrackedFile>, e: ScannedEntry, max: u64, t: TrackedFile)
    requires
        utf8_text(e.path@) is Some,
        e.state.kind == FileKind::Symlink ==> utf8_text(e.symlink_target@) is Some,
        tracked_state(old, utf8_text(e.path@).unwrap()) is Some,
        is_new_entry(t, old, e),
    ensures
        entry_error(old, e, max) is None,
        t.path@ == utf8_text(e.path@).unwrap(),
        t.state.kind == e.state.kind && t.state.size == e.state.size,
{
}

/// A path, or a symlink target, that is not valid text anywhere in the walk
/// makes the whole snapshot fail.
pub proof fn lemma_invalid_text_rejected(old: Seq<TrackedFile>, scan: Seq<ScannedEntry>, max: u64, i: int)
    requires
        0 <= i < scan.len(),
        utf8_text(scan[i].path@) is None || (scan[i].state.kind == FileKind::Symlink && utf8_text(
            scan[i].symlink_target@,
        ) is None),
    ensures
        !snapshot_accepts(old, scan, max),
{
    assert(entry_error(old, scan[i], max) is Some);
}

} // verus!
