use working_copy::snapshot::{FileKind, FileState, ScannedEntry, SnapshotError};
use working_copy::working_copy::{
    LocalWorkingCopy, LockedWorkingCopy, SnapshotOptions, WorkingCopy, WorkingCopyRecord,
};

fn record(op: &str, tree: &str) -> WorkingCopyRecord {
    WorkingCopyRecord {
        workspace_id: "default".to_string(),
        operation_id: op.to_string(),
        tree_id: tree.to_string(),
    }
}

fn big_file() -> ScannedEntry {
    ScannedEntry {
        path: b"big".to_vec(),
        state: FileState { kind: FileKind::Normal, size: 11, mtime: 1, content_id: 1 },
        symlink_target: Vec::new(),
    }
}

#[test]
fn empty_options_have_no_limit() {
    let o = SnapshotOptions::empty_for_test();
    assert!(o.base_ignores.is_empty());
    assert!(o.fsmonitor_kind.is_none());
    assert_eq!(o.max_new_file_size, u64::MAX);
}

#[test]
fn lock_captures_record() {
    let rec = record("op1", "tree1");
    let lock = LockedWorkingCopy::new(&rec);
    assert_eq!(lock.old_operation_id(), "op1");
    assert_eq!(lock.old_tree_id(), "tree1");
    assert_eq!(lock.check_current(&rec), Ok(()));
}

#[test]
fn snapshot_fails_when_record_moved() {
    let lock = LockedWorkingCopy::new(&record("op1", "tree1"));
    let live = record("op2", "tree2");
    let r = lock.snapshot(&live, &Vec::new(), &Vec::new(), &SnapshotOptions::empty_for_test(), &|_p: &String| {});
    assert_eq!(
        r,
        Err(SnapshotError::ConcurrentUpdate {
            expected_operation_id: "op1".to_string(),
            found_operation_id: "op2".to_string(),
        })
    );
}

#[test]
fn rejected_snapshot_leaves_record_unchanged() {
    let rec = record("op1", "tree1");
    let lock = LockedWorkingCopy::new(&rec);
    let mut options = SnapshotOptions::empty_for_test();
    options.max_new_file_size = 10;
    let r = lock.snapshot(&rec, &Vec::new(), &vec![big_file()], &options, &|_p: &String| {});
    assert!(matches!(r, Err(SnapshotError::NewFileTooLarge { size: 11, max_size: 10, .. })));
    assert_eq!(rec, record("op1", "tree1"));
}

#[test]
fn finish_commits_new_record() {
    let rec = record("op1", "tree1");
    let lock = LockedWorkingCopy::new(&rec);
    let r = lock.finish(&rec, Ok("tree2".to_string()), "op2".to_string());
    assert_eq!(r, Ok(record("op2", "tree2")));
}

#[test]
fn finish_reports_backend_failure() {
    let rec = record("op1", "tree1");
    let lock = LockedWorkingCopy::new(&rec);
    let r = lock.finish(&rec, Err("disk full".to_string()), "op2".to_string());
    assert_eq!(r, Err(SnapshotError::InternalBackendError { message: "disk full".to_string() }));
}

#[test]
fn finish_fails_when_record_moved() {
    let lock = LockedWorkingCopy::new(&record("op1", "tree1"));
    let r = lock.finish(&record("op9", "tree1"), Ok("tree2".to_string()), "op2".to_string());
    assert!(matches!(r, Err(SnapshotError::ConcurrentUpdate { .. })));
}

#[test]
fn local_working_copy_accessors() {
    let wc = LocalWorkingCopy { root: "/repo".to_string(), record: record("op1", "tree1") };
    assert_eq!(wc.name(), "local");
    assert_eq!(wc.path(), "/repo");
    assert_eq!(wc.workspace_id(), "default");
    assert_eq!(wc.operation_id(), "op1");
}
