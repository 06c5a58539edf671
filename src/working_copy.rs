//! The working-copy record, its read-side handle, and the lock guard under
//! which a snapshot advances it.

use vstd::prelude::*;

use crate::snapshot::{
    is_first_error, is_snapshot_of, snapshot_accepts, snapshot_tree, ScannedEntry,
    SnapshotError, TrackedFile,
};

verus! {

/// Names one checkout of a repository.
pub type WorkspaceId = String;

/// Content address of an operation in the operation log.
pub type OperationId = String;

/// Content address of a (possibly conflicted) tree.
pub type MergedTreeId = String;

/// The persisted belief that, as of `operation_id`, the files on disk are
/// the content of `tree_id`.
#[derive(Clone, Debug, PartialEq, Eq)]
pub struct WorkingCopyRecord {
    pub workspace_id: WorkspaceId,
    pub operation_id: OperationId,
    pub tree_id: MergedTreeId,
}

/// Read access to a working copy; needs no lock.
pub trait WorkingCopy {
    /// The name of the implementation, used to pick it when loading.
    fn name(&self) -> &str;

    /// The working copy's root directory.
    fn path(&self) -> &str;

    /// The working copy's workspace id.
    fn workspace_id(&self) -> &WorkspaceId;

    /// The operation this working copy was most recently updated to.
    fn operation_id(&self) -> &OperationId;
}

/// A working copy on the local disk, at `root`, as its record describes it.
pub struct LocalWorkingCopy {
    pub root: String,
    pub record: WorkingCopyRecord,
}

impl WorkingCopy for LocalWorkingCopy {
    fn name(&self) -> &str {
        "local"
    }

    fn path(&self) -> &str {
        self.root.as_str()
    }

    fn workspace_id(&self) -> &WorkspaceId {
        &self.record.workspace_id
    }

    fn operation_id(&self) -> &OperationId {
        &self.record.operation_id
    }
}

/// Which file-system monitor, if any, may tell the walk which subtrees did
/// not change.
#[derive(Clone, Debug, PartialEq, Eq)]
pub enum FsmonitorKind {
    /// Ask Watchman.
    Watchman,
    /// Take the given list of changed files as the monitor's answer.
    Test { changed_files: Vec<String> },
}

/// Options used when snapshotting the working copy.
pub struct SnapshotOptions {
    /// The ignore patterns of the user and of the repository, applied by the
    /// walk.
    pub base_ignores: Vec<String>,
    /// The file-system monitor to use, if any.
    pub fsmonitor_kind: Option<FsmonitorKind>,
    /// The size of the largest file that may become tracked; files that are
    /// tracked already are always snapshotted.
    pub max_new_file_size: u64,
}

impl SnapshotOptions {
    /// Options with no ignores, no monitor and no size limit.
    pub fn empty_for_test() -> (r: Self)
        ensures
            r.base_ignores@.len() == 0,
            r.fsmonitor_kind is None,
            r.max_new_file_size == u64::MAX,
    {
        SnapshotOptions { base_ignores: Vec::new(), fsmonitor_kind: None, max_new_file_size: u64::MAX }
    }
}

/// Exclusive access to a working copy, holding the record as it stood when
/// the lock was taken.
pub struct LockedWorkingCopy {
    workspace_id: WorkspaceId,
    old_operation_id: OperationId,
    old_tree_id: MergedTreeId,
}

impl LockedWorkingCopy {
    pub closed spec fn spec_workspace_id(&self) -> Seq<char> {
        self.workspace_id@
    }

    pub closed spec fn spec_old_operation_id(&self) -> Seq<char> {
        self.old_operation_id@
    }

    pub closed spec fn spec_old_tree_id(&self) -> Seq<char> {
        self.old_tree_id@
    }

    /// `live` is still the record that the lock captured.
    pub open spec fn is_current(&self, live: WorkingCopyRecord) -> bool {
        &&& live.workspace_id@ == self.spec_workspace_id()
        &&& live.operation_id@ == self.spec_old_operation_id()
        &&& live.tree_id@ == self.spec_old_tree_id()
    }

    /// Takes the lock, once the exclusive lock on the workspace is held,
    /// capturing `record` as it stands.
    pub fn new(record: &WorkingCopyRecord) -> (r: Self)
        ensures
            r.spec_workspace_id() == record.workspace_id@,
            r.spec_old_operation_id() == record.operation_id@,
            r.spec_old_tree_id() == record.tree_id@,
    {
        LockedWorkingCopy {
            workspace_id: record.workspace_id.clone(),
            old_operation_id: record.operation_id.clone(),
            old_tree_id: record.tree_id.clone(),
        }
    }

    /// The operation at the time the lock was taken.
    pub fn old_operation_id(&self) -> (r: &OperationId)
        ensures
            r@ == self.spec_old_operation_id(),
    {
        &self.old_operation_id
    }

    /// The tree at the time the lock was taken.
    pub fn old_tree_id(&self) -> (r: &MergedTreeId)
        ensures
            r@ == self.spec_old_tree_id(),
    {
        &self.old_tree_id
    }

    /// Fails unless `live` is still the record that the lock captured.
    pub fn check_current(&self, live: &WorkingCopyRecord) -> (r: Result<(), SnapshotError>)
        ensures
            r is Ok <==> self.is_current(*live),
            r is Err ==> r->Err_0@ == (crate::snapshot::SnapshotErrorView::ConcurrentUpdate {
                expected_operation_id: self.spec_old_operation_id(),
                found_operation_id: live.operation_id@,
            }),
    {
        if live.workspace_id == self.workspace_id && live.operation_id == self.old_operation_id
            && live.tree_id == self.old_tree_id {
            Ok(())
        } else {
            Err(
                SnapshotError::ConcurrentUpdate {
                    expected_operation_id: self.old_operation_id.clone(),
                    found_operation_id: live.operation_id.clone(),
                },
            )
        }
    }

    /// Snapshots the working copy: checks that `live` is still the captured
    /// record, then builds the new tree's entries from `old_tree` (the content
    /// of the captured tree) and one walk of the working directory, telling
    /// `progress` of each path.
    pub fn snapshot<F: Fn(&String)>(
        &self,
        live: &WorkingCopyRecord,
        old_tree: &Vec<TrackedFile>,
        scan: &Vec<ScannedEntry>,
        options: &SnapshotOptions,
        progress: &F,
    ) -> (r: Result<Vec<TrackedFile>, SnapshotError>)
        requires
            forall|p: &String| #[trigger] progress.requires((p,)),
        ensures
            !self.is_current(*live) ==> r is Err && r->Err_0@ == (
            crate::snapshot::SnapshotErrorView::ConcurrentUpdate {
                expected_operation_id: self.spec_old_operation_id(),
                found_operation_id: live.operation_id@,
            }),
            self.is_current(*live) ==> (r is Ok <==> snapshot_accepts(
                old_tree@,
                scan@,
                options.max_new_file_size,
            )),
            self.is_current(*live) ==> match r {
                Ok(t) => is_snapshot_of(t@, old_tree@, scan@),
                Err(err) => exists|i: int|
                    is_first_error(old_tree@, scan@, options.max_new_file_size, i, err@),
            },
    {
        match self.check_current(live) {
            Ok(()) => {},
            Err(e) => {
                return Err(e);
            },
        }
        snapshot_tree(old_tree, scan, options.max_new_file_size, progress)
    }

    /// Releases the lock, committing the snapshot: `written` is the outcome
    /// of writing the new tree to the backend. The new record is returned only
    /// if `live` is still the captured record and the write succeeded.
    pub fn finish(
        self,
        live: &WorkingCopyRecord,
        written: Result<MergedTreeId, String>,
        new_operation_id: OperationId,
    ) -> (r: Result<WorkingCopyRecord, SnapshotError>)
        ensures
            !self.is_current(*live) ==> r is Err && r->Err_0@ == (
            crate::snapshot::SnapshotErrorView::ConcurrentUpdate {
                expected_operation_id: self.spec_old_operation_id(),
                found_operation_id: live.operation_id@,
            }),
            self.is_current(*live) ==> match written {
                Ok(tree_id) => r is Ok && r->Ok_0.workspace_id@ == self.spec_workspace_id()
                    && r->Ok_0.operation_id@ == new_operation_id@ && r->Ok_0.tree_id@ == tree_id@,
                Err(message) => r is Err && r->Err_0@ == (
                crate::snapshot::SnapshotErrorView::InternalBackendError { message: message@ }),
            },
    {
        match self.check_current(live) {
            Ok(()) => {},
            Err(e) => {
                return Err(e);
            },
        }
        match written {
            Ok(tree_id) => Ok(
                WorkingCopyRecord {
                    workspace_id: self.workspace_id,
                    operation_id: new_operation_id,
                    tree_id,
                },
            ),
            Err(message) => Err(SnapshotError::InternalBackendError { message }),
        }
    }
}

} // verus!
