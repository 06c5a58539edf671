use working_copy::snapshot::{
    lookup_state, snapshot_entry, snapshot_tree, FileKind, FileState, ScannedEntry, SnapshotError,
    TrackedFile,
};

fn quiet(_path: &String) {}

fn state(kind: FileKind, size: u64, mtime: i64, content_id: u64) -> FileState {
    FileState { kind, size, mtime, content_id }
}

fn file(path: &[u8], size: u64, mtime: i64, content_id: u64) -> ScannedEntry {
    ScannedEntry {
        path: path.to_vec(),
        state: state(FileKind::Normal, size, mtime, content_id),
        symlink_target: Vec::new(),
    }
}

fn symlink(path: &[u8], target: &[u8], content_id: u64) -> ScannedEntry {
    ScannedEntry {
        path: path.to_vec(),
        state: state(FileKind::Symlink, target.len() as u64, 1, content_id),
        symlink_target: target.to_vec(),
    }
}

fn entry(path: &str, st: FileState) -> TrackedFile {
    TrackedFile { path: path.to_string(), state: st }
}

#[test]
fn snapshot_of_empty_walk_is_empty() {
    let r = snapshot_tree(&Vec::new(), &Vec::new(), 10, &quiet).unwrap();
    assert!(r.is_empty());
}

#[test]
fn snapshot_decodes_paths() {
    let scan = vec![file("dir/é.txt".as_bytes(), 3, 7, 11)];
    let r = snapshot_tree(&Vec::new(), &scan, 10, &quiet).unwrap();
    assert_eq!(r, vec![entry("dir/é.txt", state(FileKind::Normal, 3, 7, 11))]);
}

#[test]
fn snapshot_twice_gives_same_tree() {
    let old = vec![
        entry("a", state(FileKind::Normal, 5, 100, 1)),
        entry("gone", state(FileKind::Normal, 1, 1, 9)),
    ];
    let scan = vec![
        file(b"a", 5, 100, 77),
        file(b"b", 8, 200, 2),
        symlink(b"link", b"a", 3),
    ];
    let first = snapshot_tree(&old, &scan, 100, &quiet).unwrap();
    let second = snapshot_tree(&first, &scan, 100, &quiet).unwrap();
    assert_eq!(first, second);
    assert_eq!(first.len(), 3);
}

#[test]
fn unchanged_file_keeps_old_content() {
    let old = vec![entry("a", state(FileKind::Normal, 5, 100, 1))];
    let r = snapshot_tree(&old, &vec![file(b"a", 5, 100, 77)], 100, &quiet).unwrap();
    assert_eq!(r[0].state.content_id, 1);
}

#[test]
fn modified_file_takes_new_content() {
    let old = vec![entry("a", state(FileKind::Normal, 5, 100, 1))];
    let r = snapshot_tree(&old, &vec![file(b"a", 5, 101, 77)], 100, &quiet).unwrap();
    assert_eq!(r[0].state, state(FileKind::Normal, 5, 101, 77));
}

#[test]
fn removed_file_is_dropped() {
    let old = vec![entry("a", state(FileKind::Normal, 5, 100, 1))];
    let r = snapshot_tree(&old, &vec![file(b"b", 1, 1, 2)], 100, &quiet).unwrap();
    assert_eq!(r.len(), 1);
    assert_eq!(r[0].path, "b");
}

#[test]
fn new_file_of_exactly_max_size_is_accepted() {
    let r = snapshot_tree(&Vec::new(), &vec![file(b"big", 1024, 1, 5)], 1024, &quiet).unwrap();
    assert_eq!(r[0].state.size, 1024);
}

#[test]
fn new_file_one_byte_over_max_is_rejected() {
    let r = snapshot_tree(&Vec::new(), &vec![file(b"big", 1025, 1, 5)], 1024, &quiet);
    assert_eq!(
        r,
        Err(SnapshotError::NewFileTooLarge { path: "big".to_string(), size: 1025, max_size: 1024 })
    );
}

#[test]
fn tracked_file_may_grow_past_max() {
    let old = vec![entry("big", state(FileKind::Normal, 10, 1, 5))];
    let r = snapshot_tree(&old, &vec![file(b"big", 5000, 2, 6)], 1024, &quiet).unwrap();
    assert_eq!(r, vec![entry("big", state(FileKind::Normal, 5000, 2, 6))]);
}

#[test]
fn new_symlink_over_max_is_rejected() {
    let target = vec![b'x'; 50];
    let r = snapshot_tree(&Vec::new(), &vec![symlink(b"l", &target, 4)], 10, &quiet);
    assert_eq!(
        r,
        Err(SnapshotError::NewFileTooLarge { path: "l".to_string(), size: 50, max_size: 10 })
    );
}

#[test]
fn new_tree_is_ordered_by_path() {
    let scan = vec![
        file(b"src/main.rs", 1, 1, 1),
        file(b"README", 2, 1, 2),
        file(b"src", 3, 1, 3),
        file("é".as_bytes(), 4, 1, 4),
        file(b"a", 5, 1, 5),
    ];
    let r = snapshot_tree(&Vec::new(), &scan, 10, &quiet).unwrap();
    let paths: Vec<&str> = r.iter().map(|e| e.path.as_str()).collect();
    assert_eq!(paths, vec!["README", "a", "src", "src/main.rs", "é"]);
}

#[test]
fn walk_order_does_not_matter() {
    let old = vec![entry("a", state(FileKind::Normal, 5, 100, 1))];
    let one = vec![file(b"a", 5, 100, 9), file(b"c", 1, 1, 3), symlink(b"b", b"a", 2)];
    let two = vec![symlink(b"b", b"a", 2), file(b"c", 1, 1, 3), file(b"a", 5, 100, 9)];
    let r1 = snapshot_tree(&old, &one, 10, &quiet).unwrap();
    let r2 = snapshot_tree(&old, &two, 10, &quiet).unwrap();
    assert_eq!(r1, r2);
    assert_eq!(r1[0], entry("a", state(FileKind::Normal, 5, 100, 1)));
}

#[test]
fn invalid_utf8_path_is_rejected() {
    let scan = vec![file(b"ok", 1, 1, 1), file(b"bad\xff", 1, 1, 2)];
    let r = snapshot_tree(&Vec::new(), &scan, 10, &quiet);
    assert_eq!(r, Err(SnapshotError::InvalidUtf8Path { path: b"bad\xff".to_vec() }));
}

#[test]
fn invalid_utf8_symlink_target_is_rejected() {
    let scan = vec![symlink(b"link", b"\xc3\x28", 1)];
    let r = snapshot_tree(&Vec::new(), &scan, 10, &quiet);
    assert_eq!(
        r,
        Err(SnapshotError::InvalidUtf8SymlinkTarget {
            path: "link".to_string(),
            target: b"\xc3\x28".to_vec(),
        })
    );
}

#[test]
fn first_error_in_walk_order_is_reported() {
    let scan = vec![file(b"huge", 99, 1, 1), file(b"\xfe", 1, 1, 2)];
    let r = snapshot_tree(&Vec::new(), &scan, 10, &quiet);
    assert_eq!(
        r,
        Err(SnapshotError::NewFileTooLarge { path: "huge".to_string(), size: 99, max_size: 10 })
    );
}

#[test]
fn entry_with_changed_kind_is_taken_as_found() {
    let old = vec![entry("x", state(FileKind::Normal, 3, 1, 1))];
    let e = ScannedEntry {
        path: b"x".to_vec(),
        state: state(FileKind::Executable, 3, 1, 2),
        symlink_target: Vec::new(),
    };
    let t = snapshot_entry(&old, &e, 0).unwrap();
    assert_eq!(t.state, state(FileKind::Executable, 3, 1, 2));
}

#[test]
fn lookup_takes_last_entry() {
    let tree = vec![
        entry("a", state(FileKind::Normal, 1, 1, 1)),
        entry("a", state(FileKind::Normal, 2, 2, 2)),
    ];
    assert_eq!(lookup_state(&tree, &"a".to_string()), Some(state(FileKind::Normal, 2, 2, 2)));
    assert_eq!(lookup_state(&tree, &"b".to_string()), None);
}

#[test]
fn progress_sees_each_accepted_path_in_order() {
    let seen = std::cell::RefCell::new(Vec::new());
    let observer = |p: &String| seen.borrow_mut().push(p.clone());
    let scan = vec![file(b"b", 1, 1, 1), file(b"a", 1, 1, 2)];
    let r = snapshot_tree(&Vec::new(), &scan, 10, &observer).unwrap();
    assert_eq!(r.len(), 2);
    assert_eq!(*seen.borrow(), vec!["b".to_string(), "a".to_string()]);
}
