//! The help topics that are not subcommands.

use vstd::prelude::*;

use crate::text::str_equal;

verus! {

/// A help topic, with its one-line description. Its text is the
/// documentation page named after the topic.
#[derive(Clone, Copy, Debug)]
pub struct Category {
    pub description: &'static str,
}

/// The topics in the order they are listed: name and description.
pub open spec fn category_table() -> Seq<(Seq<char>, Seq<char>)> {
    seq![
        ("revsets"@, "A functional language for selecting a set of revision"@),
        ("tutorial"@, "Show a tutorial to get started with jj"@),
    ]
}

/// Whether entry `i` of the table is the topic `c` under `name`.
pub open spec fn is_table_entry(i: int, name: Seq<char>, c: Category) -> bool {
    &&& 0 <= i < category_table().len()
    &&& category_table()[i].0 == name
    &&& category_table()[i].1 == c.description@
}

/// Entry `i` is the first of the table under `name`, and it is `c`.
pub open spec fn is_first_entry(i: int, name: Seq<char>, c: Category) -> bool {
    &&& is_table_entry(i, name, c)
    &&& forall|j: int| 0 <= j < i ==> category_table()[j].0 != name
}

/// The topics, each under its name, in the order of `category_table`.
pub fn categories() -> (r: Vec<(&'static str, Category)>)
    ensures
        r@.len() == category_table().len(),
        forall|i: int| 0 <= i < r@.len() ==> is_table_entry(i, (#[trigger] r@[i]).0@, r@[i].1),
{
    vec![
        (
            "revsets",
            Category { description: "A functional language for selecting a set of revision" },
        ),
        (
            "tutorial",
            Category { description: "Show a tutorial to get started with jj" },
        ),
    ]
}

/// Looks a topic up by its name.
pub fn find_category(name: &str) -> (r: Option<Category>)
    ensures
        r is None <==> name@ != category_table()[0].0 && name@ != category_table()[1].0,
        forall|c: Category| r == Some(c) ==> exists|i: int| is_first_entry(i, name@, c),
        name@ == category_table()[0].0 ==> r is Some && is_table_entry(0, name@, r->Some_0),
        name@ == category_table()[1].0 ==> r is Some && is_first_entry(1, name@, r->Some_0),
{
    proof {
        reveal_strlit("revsets");
        reveal_strlit("tutorial");
        assert("revsets"@.len() == 7);
        assert("tutorial"@.len() == 8);
        assert(category_table()[0].0 != category_table()[1].0);
    }
    let table = categories();
    let mut i: usize = 0;
    while i < table.len()
        invariant
            table@.len() == category_table().len(),
            category_table()[0].0 != category_table()[1].0,
            forall|k: int| 0 <= k < table@.len() ==> is_table_entry(k, (#[trigger] table@[k]).0@, table@[k].1),
            i <= table@.len(),
            forall|k: int| 0 <= k < i ==> category_table()[k].0 != name@,
        decreases table.len() - i,
    {
        if str_equal(table[i].0, name) {
            let c = table[i].1;
            assert(is_first_entry(i as int, name@, c));
            assert(name@ == category_table()[1].0 ==> i == 1);
            return Some(c);
        }
        i = i + 1;
    }
    None
}

/// The topic that a `help` command asks for: its words must be a single
/// topic name.
pub fn requested_category(words: &Vec<String>) -> (r: Option<Category>)
    ensures
        words@.len() != 1 ==> r is None,
        words@.len() == 1 ==> (r is None <==> words@[0]@ != category_table()[0].0
            && words@[0]@ != category_table()[1].0),
        forall|c: Category| r == Some(c) ==> words@.len() == 1 && exists|i: int| is_first_entry(i, words@[0]@, c),
{
    if words.len() == 1 {
        find_category(words[0].as_str())
    } else {
        None
    }
}

} // verus!
