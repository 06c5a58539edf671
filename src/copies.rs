//! The copy accumulator: the union of the copy records of several commit
//! pairs.

use vstd::prelude::*;

verus! {

/// Evidence that the content at `source` in one tree continues at `target`
/// in another.
#[derive(Clone, Debug, PartialEq, Eq)]
pub struct CopyRecord {
    pub source: String,
    pub target: String,
}

/// A copy record as a pair of paths.
pub open spec fn record_pair(r: CopyRecord) -> (Seq<char>, Seq<char>) {
    (r.source@, r.target@)
}

/// The pairs of a list of records, in order.
pub open spec fn record_pairs(rs: Seq<CopyRecord>) -> Seq<(Seq<char>, Seq<char>)> {
    rs.map_values(|r: CopyRecord| record_pair(r))
}

/// `acc` followed by each pair of `new` that is not in it yet: the first
/// occurrence of a pair wins.
pub open spec fn union_pairs(
    acc: Seq<(Seq<char>, Seq<char>)>,
    new: Seq<(Seq<char>, Seq<char>)>,
) -> Seq<(Seq<char>, Seq<char>)>
    decreases new.len(),
{
    if new.len() == 0 {
        acc
    } else {
        let u = union_pairs(acc, new.drop_last());
        if u.contains(new.last()) {
            u
        } else {
            u.push(new.last())
        }
    }
}

/// The union holds every pair of both inputs and nothing else, and has no
/// repeated pair if `acc` has none.
pub proof fn lemma_union_pairs(acc: Seq<(Seq<char>, Seq<char>)>, new: Seq<(Seq<char>, Seq<char>)>)
    ensures
        forall|x| acc.contains(x) || new.contains(x) <==> #[trigger] union_pairs(acc, new).contains(x),
        acc.no_duplicates() ==> union_pairs(acc, new).no_duplicates(),
    decreases new.len(),
{
    if new.len() > 0 {
        let rest = new.drop_last();
        lemma_union_pairs(acc, rest);
        let u = union_pairs(acc, rest);
        assert forall|x| new.contains(x) <==> rest.contains(x) || x == new.last() by {
            if new.contains(x) {
                let k = choose|k: int| 0 <= k < new.len() && new[k] == x;
                if k < new.len() - 1 {
                    assert(rest[k] == x);
                }
            }
            if rest.contains(x) {
                let k = choose|k: int| 0 <= k < rest.len() && rest[k] == x;
                assert(new[k] == x);
            }
            if x == new.last() {
                assert(new[new.len() - 1] == x);
            }
        }
        if !u.contains(new.last()) {
            assert forall|x| u.push(new.last()).contains(x) <==> u.contains(x) || x == new.last() by {
                if u.push(new.last()).contains(x) {
                    let k = choose|k: int| 0 <= k < u.len() + 1 && u.push(new.last())[k] == x;
                    if k < u.len() {
                        assert(u[k] == x);
                    }
                }
                if u.contains(x) {
                    let k = choose|k: int| 0 <= k < u.len() && u[k] == x;
                    assert(u.push(new.last())[k] == x);
                }
                if x == new.last() {
                    assert(u.push(new.last())[u.len() as int] == x);
                }
            }
        }
        assert forall|x| acc.contains(x) || new.contains(x) <==> #[trigger] union_pairs(acc, new).contains(x) by {
            assert(acc.contains(x) || rest.contains(x) <==> u.contains(x));
            assert(new.contains(x) <==> rest.contains(x) || x == new.last());
        }
    }
}

/// Copy records gathered from one or more pairs of commits, without repeated
/// (source, target) pairs.
pub struct CopyRecords {
    records: Vec<CopyRecord>,
}

impl View for CopyRecords {
    type V = Seq<(Seq<char>, Seq<char>)>;

    closed spec fn view(&self) -> Seq<(Seq<char>, Seq<char>)> {
        record_pairs(self.records@)
    }
}

impl CopyRecords {
    /// No pair is held twice.
    pub open spec fn wf(&self) -> bool {
        self@.no_duplicates()
    }

    /// No records.
    pub fn new() -> (r: Self)
        ensures
            r@ == Seq::<(Seq<char>, Seq<char>)>::empty(),
            r.wf(),
    {
        let r = CopyRecords { records: Vec::new() };
        assert(r@ =~= Seq::<(Seq<char>, Seq<char>)>::empty());
        r
    }

    /// Whether a record from `source` to `target` is held.
    pub fn contains(&self, source: &String, target: &String) -> (r: bool)
        ensures
            r == self@.contains((source@, target@)),
    {
        let mut i: usize = 0;
        while i < self.records.len()
            invariant
                i <= self.records@.len(),
                forall|k: int| 0 <= k < i ==> (#[trigger] self@[k]) != (source@, target@),
                self@ == record_pairs(self.records@),
            decreases self.records.len() - i,
        {
            if self.records[i].source == *source && self.records[i].target == *target {
                assert(self@[i as int] == (source@, target@));
                return true;
            }
            i = i + 1;
        }
        false
    }

    /// Adds the records of one commit pair; a pair held already keeps its
    /// first occurrence.
    pub fn add_records(&mut self, records: Vec<CopyRecord>)
        requires
            old(self).wf(),
        ensures
            final(self)@ == union_pairs(old(self)@, record_pairs(records@)),
            final(self).wf(),
            forall|x| old(self)@.contains(x) || record_pairs(records@).contains(x) <==> #[trigger] final(self)@.contains(x),
    {
        let ghost start = self@;
        let ghost new = record_pairs(records@);
        let mut records = records;
        let mut i: usize = 0;
        let n = records.len();
        while i < n
            invariant
                n == records@.len(),
                new == record_pairs(records@),
                i <= n,
                self@ == union_pairs(start, new.subrange(0, i as int)),
            decreases n - i,
        {
            assert(new.subrange(0, i + 1).drop_last() =~= new.subrange(0, i as int));
            let r = records[i].source.clone();
            let t = records[i].target.clone();
            if !self.contains(&r, &t) {
                self.records.push(CopyRecord { source: r, target: t });
                assert(self@ =~= union_pairs(start, new.subrange(0, i as int)).push(new[i as int]));
            }
            i = i + 1;
        }
        assert(new.subrange(0, n as int) =~= new);
        proof {
            lemma_union_pairs(start, new);
        }
    }

    /// The records held, in the order they were added.
    pub fn records(&self) -> (r: &Vec<CopyRecord>)
        ensures
            record_pairs(r@) == self@,
    {
        &self.records
    }
}

} // verus!
