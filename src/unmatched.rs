//! The report of explicitly requested paths that neither side of a diff
//! holds.

use vstd::prelude::*;

use crate::text::{is_under, path_is_under};

verus! {

/// A tree, given by the paths of its files, holds `path`: as a file, or as a
/// directory above one of them.
pub open spec fn tree_has_path(tree: Seq<String>, path: Seq<char>) -> bool {
    exists|i: int| 0 <= i < tree.len() && (tree[i]@ == path || is_under(path, #[trigger] tree[i]@))
}

/// Neither tree holds `path`.
pub open spec fn is_unmatched(from: Seq<String>, to: Seq<String>, path: Seq<char>) -> bool {
    !tree_has_path(from, path) && !tree_has_path(to, path)
}

/// The requested paths that neither tree holds, each once, in the order of
/// their first request.
pub open spec fn unmatched_paths(requested: Seq<Seq<char>>, from: Seq<String>, to: Seq<String>) -> Seq<Seq<char>>
    decreases requested.len(),
{
    if requested.len() == 0 {
        Seq::empty()
    } else {
        let u = unmatched_paths(requested.drop_last(), from, to);
        let p = requested.last();
        if is_unmatched(from, to, p) && !u.contains(p) {
            u.push(p)
        } else {
            u
        }
    }
}

/// The characters of each string.
pub open spec fn strings_view(v: Seq<String>) -> Seq<Seq<char>> {
    v.map_values(|s: String| s@)
}

/// Every requested path that neither tree holds is reported, exactly once,
/// and no other path is reported.
pub proof fn lemma_unmatched_reported_once(requested: Seq<Seq<char>>, from: Seq<String>, to: Seq<String>)
    ensures
        forall|p| requested.contains(p) && is_unmatched(from, to, p)
            <==> #[trigger] unmatched_paths(requested, from, to).contains(p),
        unmatched_paths(requested, from, to).no_duplicates(),
    decreases requested.len(),
{
    if requested.len() > 0 {
        let rest = requested.drop_last();
        lemma_unmatched_reported_once(rest, from, to);
        let u = unmatched_paths(rest, from, to);
        let last = requested.last();
        assert forall|p| requested.contains(p) <==> rest.contains(p) || p == last by {
            if requested.contains(p) {
                let k = choose|k: int| 0 <= k < requested.len() && requested[k] == p;
                if k < requested.len() - 1 {
                    assert(rest[k] == p);
                }
            }
            if rest.contains(p) {
                let k = choose|k: int| 0 <= k < rest.len() && rest[k] == p;
                assert(requested[k] == p);
            }
            if p == last {
                assert(requested[requested.len() - 1] == p);
            }
        }
        if is_unmatched(from, to, last) && !u.contains(last) {
            assert forall|p| u.push(last).contains(p) <==> u.contains(p) || p == last by {
                if u.push(last).contains(p) {
                    let k = choose|k: int| 0 <= k < u.len() + 1 && u.push(last)[k] == p;
                    if k < u.len() {
                        assert(u[k] == p);
                    }
                }
                if u.contains(p) {
                    let k = choose|k: int| 0 <= k < u.len() && u[k] == p;
                    assert(u.push(last)[k] == p);
                }
                if p == last {
                    assert(u.push(last)[u.len() as int] == p);
                }
            }
        }
        assert forall|p| requested.contains(p) && is_unmatched(from, to, p)
            <==> #[trigger] unmatched_paths(requested, from, to).contains(p) by {
            assert(rest.contains(p) && is_unmatched(from, to, p) <==> u.contains(p));
            assert(requested.contains(p) <==> rest.contains(p) || p == last);
        }
    }
}

/// Decides `tree_has_path(tree@, path@)`.
pub fn tree_contains_path(tree: &Vec<String>, path: &String) -> (r: bool)
    ensures
        r == tree_has_path(tree@, path@),
{
    let mut i: usize = 0;
    while i < tree.len()
        invariant
            i <= tree@.len(),
            forall|k: int| 0 <= k < i ==> !(tree@[k]@ == path@ || is_under(path@, #[trigger] tree@[k]@)),
        decreases tree.len() - i,
    {
        if tree[i] == *path || path_is_under(path.as_str(), tree[i].as_str()) {
            return true;
        }
        i = i + 1;
    }
    false
}

fn contains_string(v: &Vec<String>, s: &String) -> (r: bool)
    ensures
        r == strings_view(v@).contains(s@),
{
    let mut i: usize = 0;
    while i < v.len()
        invariant
            i <= v@.len(),
            forall|k: int| 0 <= k < i ==> (#[trigger] strings_view(v@)[k]) != s@,
        decreases v.len() - i,
    {
        if v[i] == *s {
            assert(strings_view(v@)[i as int] == s@);
            return true;
        }
        i = i + 1;
    }
    false
}

/// The explicitly requested paths that neither side of a diff holds, each
/// reported once; `from_tree` and `to_tree` are the file paths of the two
/// trees.
pub fn unmatched_explicit_paths(requested: &Vec<String>, from_tree: &Vec<String>, to_tree: &Vec<String>) -> (r: Vec<String>)
    ensures
        strings_view(r@) == unmatched_paths(strings_view(requested@), from_tree@, to_tree@),
{
    let ghost req = strings_view(requested@);
    let mut out: Vec<String> = Vec::new();
    let mut i: usize = 0;
    while i < requested.len()
        invariant
            i <= requested@.len(),
            req == strings_view(requested@),
            strings_view(out@) == unmatched_paths(req.subrange(0, i as int), from_tree@, to_tree@),
        decreases requested.len() - i,
    {
        assert(req.subrange(0, i + 1).drop_last() =~= req.subrange(0, i as int));
        let p = &requested[i];
        if !tree_contains_path(from_tree, p) && !tree_contains_path(to_tree, p) && !contains_string(&out, p) {
            let ghost before = out@;
            out.push(p.clone());
            assert(strings_view(out@) =~= strings_view(before).push(p@));
        }
        i = i + 1;
    }
    assert(req.subrange(0, requested@.len() as int) =~= req);
    out
}

} // verus!
