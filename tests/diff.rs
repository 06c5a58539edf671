use working_copy::copies::{CopyRecord, CopyRecords};
use working_copy::diff::{
    explicit_endpoints, implicit_endpoints, resolve_single, select_endpoints, Baseline, CommitInfo,
    DiffError, EndpointRequest,
};
use working_copy::unmatched::{tree_contains_path, unmatched_explicit_paths};

fn commit(id: &str, tree: &str) -> CommitInfo {
    CommitInfo { id: id.to_string(), tree_id: tree.to_string() }
}

fn s(x: &str) -> String {
    x.to_string()
}

fn strings(xs: &[&str]) -> Vec<String> {
    xs.iter().map(|x| x.to_string()).collect()
}

fn rec(a: &str, b: &str) -> CopyRecord {
    CopyRecord { source: s(a), target: s(b) }
}

#[test]
fn no_references_means_implicit_working_copy() {
    let r = select_endpoints(None, None, None).unwrap();
    assert_eq!(r, EndpointRequest::Implicit { revision: s("@") });
}

#[test]
fn revision_alone_is_implicit() {
    let r = select_endpoints(Some(s("main")), None, None).unwrap();
    assert_eq!(r, EndpointRequest::Implicit { revision: s("main") });
}

#[test]
fn from_alone_defaults_to_working_copy() {
    let r = select_endpoints(None, Some(s("main")), None).unwrap();
    assert_eq!(r, EndpointRequest::Explicit { from: s("main"), to: s("@") });
}

#[test]
fn to_alone_defaults_from_to_working_copy() {
    let r = select_endpoints(None, None, Some(s("x"))).unwrap();
    assert_eq!(r, EndpointRequest::Explicit { from: s("@"), to: s("x") });
}

#[test]
fn revision_with_from_is_rejected() {
    let r = select_endpoints(Some(s("a")), Some(s("b")), None);
    assert_eq!(r, Err(DiffError::ConflictingArguments));
}

#[test]
fn single_candidate_resolves() {
    let r = resolve_single(&s("main"), vec![commit("c1", "t1")]);
    assert_eq!(r, Ok(commit("c1", "t1")));
}

#[test]
fn no_candidate_is_reported() {
    let r = resolve_single(&s("nope"), Vec::new());
    assert_eq!(r, Err(DiffError::NoSuchRevision { reference: s("nope") }));
}

#[test]
fn several_candidates_are_ambiguous() {
    let r = resolve_single(&s("x"), vec![commit("a", "t"), commit("b", "u")]);
    assert_eq!(r, Err(DiffError::AmbiguousRevision { reference: s("x"), count: 2 }));
}

#[test]
fn merge_commit_diffs_against_merged_parents() {
    let c = commit("c", "tc");
    let p1 = commit("p1", "t1");
    let p2 = commit("p2", "t2");
    let implicit = implicit_endpoints(&c, &vec![p1.clone(), p2.clone()]);
    assert_eq!(implicit.from, Baseline::Merge(strings(&["t1", "t2"])));
    assert_eq!(implicit.to_tree, "tc");
    assert_eq!(implicit.copy_queries, vec![(s("p1"), s("c")), (s("p2"), s("c"))]);
    let explicit = explicit_endpoints(&p1, &c);
    assert_eq!(explicit.from, Baseline::Tree(s("t1")));
    assert_eq!(explicit.to_tree, "tc");
    assert_eq!(explicit.copy_queries, vec![(s("p1"), s("c"))]);
    assert_ne!(implicit.from, explicit.from);
}

#[test]
fn single_parent_diffs_against_parent_tree() {
    let e = implicit_endpoints(&commit("c", "tc"), &vec![commit("p", "tp")]);
    assert_eq!(e.from, Baseline::Tree(s("tp")));
    assert_eq!(e.copy_queries, vec![(s("p"), s("c"))]);
}

#[test]
fn root_commit_diffs_against_empty_tree() {
    let e = implicit_endpoints(&commit("c", "tc"), &Vec::new());
    assert_eq!(e.from, Baseline::Empty);
    assert!(e.copy_queries.is_empty());
}

#[test]
fn copy_records_are_unioned_first_wins() {
    let mut acc = CopyRecords::new();
    acc.add_records(vec![rec("a", "b"), rec("c", "d")]);
    acc.add_records(vec![rec("c", "d"), rec("e", "f"), rec("e", "f")]);
    assert_eq!(acc.records(), &vec![rec("a", "b"), rec("c", "d"), rec("e", "f")]);
    assert!(acc.contains(&s("e"), &s("f")));
    assert!(!acc.contains(&s("f"), &s("e")));
}

#[test]
fn unmatched_path_is_reported_once() {
    let from = strings(&["src/a.rs", "README"]);
    let to = strings(&["src/b.rs"]);
    let requested = strings(&["missing", "src", "missing", "src/b.rs", "sr", "other"]);
    let r = unmatched_explicit_paths(&requested, &from, &to);
    assert_eq!(r, strings(&["missing", "sr", "other"]));
}

#[test]
fn no_requested_paths_means_no_report() {
    let r = unmatched_explicit_paths(&Vec::new(), &strings(&["a"]), &Vec::new());
    assert!(r.is_empty());
}

#[test]
fn directory_counts_as_present() {
    let tree = strings(&["a/b/c"]);
    assert!(tree_contains_path(&tree, &s("a")));
    assert!(tree_contains_path(&tree, &s("a/b")));
    assert!(tree_contains_path(&tree, &s("a/b/c")));
    assert!(!tree_contains_path(&tree, &s("a/b/c/d")));
    assert!(!tree_contains_path(&tree, &s("a/")));
}
