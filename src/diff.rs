//! Resolution of the two trees that a diff compares, and of the copy
//! evidence between them.

use vstd::prelude::*;

use crate::working_copy::MergedTreeId;

verus! {

/// Content address of a commit.
pub type CommitId = String;

/// The revision that an omitted reference stands for: the working-copy
/// commit.
pub const WORKING_COPY_REVISION: &'static str = "@";

/// A commit, as far as diff resolution needs it.
#[derive(Clone, Debug, PartialEq, Eq)]
pub struct CommitInfo {
    pub id: CommitId,
    pub tree_id: MergedTreeId,
}

/// Why the endpoints of a diff could not be resolved.
#[derive(Clone, Debug, PartialEq, Eq)]
pub enum DiffError {
    /// A single revision was given together with `from` or `to`.
    ConflictingArguments,
    /// The reference resolved to no commit.
    NoSuchRevision { reference: String },
    /// The reference resolved to more than one commit.
    AmbiguousRevision { reference: String, count: usize },
}

/// Which references the caller gave, with defaults filled in.
#[derive(Clone, Debug, PartialEq, Eq)]
pub enum EndpointRequest {
    /// Compare the tree of `from` with the tree of `to`.
    Explicit { from: String, to: String },
    /// Compare the merge of the parents of `revision` with its tree.
    Implicit { revision: String },
}

/// The reference, or the working-copy revision where none was given.
pub open spec fn reference_or_default(r: Option<String>) -> Seq<char> {
    match r {
        Some(s) => s@,
        None => WORKING_COPY_REVISION@,
    }
}

fn or_working_copy(r: Option<String>) -> (s: String)
    ensures
        s@ == reference_or_default(r),
{
    match r {
        Some(s) => s,
        None => WORKING_COPY_REVISION.to_owned(),
    }
}

/// Picks the mode of resolution: explicit when `from` or `to` is given,
/// implicit otherwise; each omitted reference is the working-copy revision.
pub fn select_endpoints(revision: Option<String>, from: Option<String>, to: Option<String>) -> (r: Result<EndpointRequest, DiffError>)
    ensures
        revision is Some && (from is Some || to is Some) <==> r is Err,
        r is Err ==> r->Err_0 is ConflictingArguments,
        (from is Some || to is Some) && r is Ok ==> r->Ok_0 is Explicit
            && r->Ok_0->Explicit_from@ == reference_or_default(from)
            && r->Ok_0->Explicit_to@ == reference_or_default(to),
        from is None && to is None ==> r is Ok && r->Ok_0 is Implicit
            && r->Ok_0->Implicit_revision@ == reference_or_default(revision),
{
    if from.is_some() || to.is_some() {
        if revision.is_some() {
            return Err(DiffError::ConflictingArguments);
        }
        Ok(EndpointRequest::Explicit { from: or_working_copy(from), to: or_working_copy(to) })
    } else {
        Ok(EndpointRequest::Implicit { revision: or_working_copy(revision) })
    }
}

/// Takes the single commit that `reference` resolved to; `candidates` are
/// all the commits it resolved to.
pub fn resolve_single(reference: &String, candidates: Vec<CommitInfo>) -> (r: Result<CommitInfo, DiffError>)
    ensures
        r is Ok <==> candidates@.len() == 1,
        r is Ok ==> r->Ok_0 == candidates@[0],
        candidates@.len() == 0 ==> r is Err && r->Err_0 is NoSuchRevision
            && r->Err_0->NoSuchRevision_reference@ == reference@,
        candidates@.len() > 1 ==> r is Err && r->Err_0 is AmbiguousRevision
            && r->Err_0->AmbiguousRevision_reference@ == reference@
            && r->Err_0->AmbiguousRevision_count == candidates@.len(),
{
    let mut candidates = candidates;
    let n = candidates.len();
    if n == 0 {
        Err(DiffError::NoSuchRevision { reference: reference.clone() })
    } else if n > 1 {
        Err(DiffError::AmbiguousRevision { reference: reference.clone(), count: n })
    } else {
        Ok(candidates.remove(0))
    }
}

/// The tree a diff starts from.
#[derive(Clone, Debug, PartialEq, Eq)]
pub enum Baseline {
    /// The empty tree: the revision has no parents.
    Empty,
    /// One tree, taken as it is.
    Tree(MergedTreeId),
    /// The conflict-preserving merge of these trees, in this order.
    Merge(Vec<MergedTreeId>),
}

/// The trees a baseline is made of, in order.
pub open spec fn baseline_trees(b: Baseline) -> Seq<Seq<char>> {
    match b {
        Baseline::Empty => Seq::empty(),
        Baseline::Tree(t) => seq![t@],
        Baseline::Merge(ts) => ts@.map_values(|t: MergedTreeId| t@),
    }
}

/// The resolved inputs of a diff: the two trees, and the pairs of commits
/// (source, target) whose copy records are to be gathered.
#[derive(Clone, Debug, PartialEq, Eq)]
pub struct DiffEndpoints {
    pub from: Baseline,
    pub to_tree: MergedTreeId,
    pub copy_queries: Vec<(CommitId, CommitId)>,
}

/// The copy queries, as pairs of ids.
pub open spec fn query_ids(e: DiffEndpoints) -> Seq<(Seq<char>, Seq<char>)> {
    e.copy_queries@.map_values(|q: (CommitId, CommitId)| (q.0@, q.1@))
}

/// `e` compares `from`'s tree with `to`'s, with copies from `from` to `to`.
pub open spec fn is_explicit_endpoints(e: DiffEndpoints, from: CommitInfo, to: CommitInfo) -> bool {
    &&& e.from is Tree
    &&& baseline_trees(e.from) == seq![from.tree_id@]
    &&& e.to_tree@ == to.tree_id@
    &&& query_ids(e) == seq![(from.id@, to.id@)]
}

/// `e` compares the merge of the parents' trees with the tree of `revision`,
/// with copies from each parent to `revision`. No parent gives the empty
/// tree; one parent gives its tree as it is.
pub open spec fn is_implicit_endpoints(e: DiffEndpoints, revision: CommitInfo, parents: Seq<CommitInfo>) -> bool {
    &&& parents.len() == 0 ==> e.from is Empty
    &&& parents.len() == 1 ==> e.from is Tree
    &&& parents.len() >= 2 ==> e.from is Merge
    &&& baseline_trees(e.from) == parents.map_values(|p: CommitInfo| p.tree_id@)
    &&& e.to_tree@ == revision.tree_id@
    &&& query_ids(e) == parents.map_values(|p: CommitInfo| (p.id@, revision.id@))
}

/// The endpoints of an explicit diff from `from` to `to`.
pub fn explicit_endpoints(from: &CommitInfo, to: &CommitInfo) -> (r: DiffEndpoints)
    ensures
        is_explicit_endpoints(r, *from, *to),
{
    let queries = vec![(from.id.clone(), to.id.clone())];
    let r = DiffEndpoints {
        from: Baseline::Tree(from.tree_id.clone()),
        to_tree: to.tree_id.clone(),
        copy_queries: queries,
    };
    assert(baseline_trees(r.from) =~= seq![from.tree_id@]);
    assert(query_ids(r) =~= seq![(from.id@, to.id@)]);
    r
}

/// The endpoints of an implicit diff of `revision`, whose parents are
/// `parents` in order.
pub fn implicit_endpoints(revision: &CommitInfo, parents: &Vec<CommitInfo>) -> (r: DiffEndpoints)
    ensures
        is_implicit_endpoints(r, *revision, parents@),
{
    let mut trees: Vec<MergedTreeId> = Vec::new();
    let mut queries: Vec<(CommitId, CommitId)> = Vec::new();
    let mut i: usize = 0;
    while i < parents.len()
        invariant
            i <= parents@.len(),
            trees@.len() == i,
            queries@.len() == i,
            forall|k: int| 0 <= k < i ==> (#[trigger] trees@[k])@ == parents@[k].tree_id@,
            forall|k: int| 0 <= k < i ==> (#[trigger] queries@[k]).0@ == parents@[k].id@
                && queries@[k].1@ == revision.id@,
        decreases parents.len() - i,
    {
        trees.push(parents[i].tree_id.clone());
        queries.push((parents[i].id.clone(), revision.id.clone()));
        i = i + 1;
    }
    let from = if parents.len() == 0 {
        Baseline::Empty
    } else if parents.len() == 1 {
        Baseline::Tree(parents[0].tree_id.clone())
    } else {
        Baseline::Merge(trees)
    };
    let r = DiffEndpoints { from, to_tree: revision.tree_id.clone(), copy_queries: queries };
    assert(baseline_trees(r.from) =~= parents@.map_values(|p: CommitInfo| p.tree_id@));
    assert(query_ids(r) =~= parents@.map_values(|p: CommitInfo| (p.id@, revision.id@)));
    r
}

/// For a commit with two parents, the implicit diff starts from the merge of
/// both parents' trees and ends at the commit's tree, while the explicit diff
/// from the first parent to the commit starts from the first parent's tree
/// alone: the two baselines differ.
pub proof fn lemma_merge_baseline(
    c: CommitInfo,
    p1: CommitInfo,
    p2: CommitInfo,
    implicit: DiffEndpoints,
    explicit: DiffEndpoints,
)
    requires
        is_implicit_endpoints(implicit, c, seq![p1, p2]),
        is_explicit_endpoints(explicit, p1, c),
    ensures
        implicit.from is Merge,
        baseline_trees(implicit.from) == seq![p1.tree_id@, p2.tree_id@],
        implicit.to_tree@ == c.tree_id@,
        explicit.from is Tree,
        baseline_trees(explicit.from) == seq![p1.tree_id@],
        explicit.to_tree@ == c.tree_id@,
        implicit.from != explicit.from,
{
    let ps = seq![p1, p2];
    assert(baseline_trees(implicit.from) =~= seq![p1.tree_id@, p2.tree_id@]) by {
        assert(ps.map_values(|p: CommitInfo| p.tree_id@)[0] == p1.tree_id@);
        assert(ps.map_values(|p: CommitInfo| p.tree_id@)[1] == p2.tree_id@);
    }
}

/// For a commit with exactly one parent, the implicit diff starts from that
/// parent's tree exactly.
pub proof fn lemma_single_parent(c: CommitInfo, p1: CommitInfo, e: DiffEndpoints)
    requires
        is_implicit_endpoints(e, c, seq![p1]),
    ensures
        e.from is Tree,
        e.from->Tree_0@ == p1.tree_id@,
{
    assert(seq![p1].map_values(|p: CommitInfo| p.tree_id@)[0] == p1.tree_id@);
    assert(baseline_trees(e.from)[0] == e.from->Tree_0@);
}

} // verus!
