//! Text helpers: decoding raw path bytes and comparing strings.

use vstd::prelude::*;

verus! {

/// What decoding `b` as UTF-8 gives: `None` when `b` is not valid UTF-8.
pub uninterp spec fn utf8_text(b: Seq<u8>) -> Option<Seq<char>>;

/// The characters of an optional string.
pub open spec fn opt_chars(s: Option<String>) -> Option<Seq<char>> {
    match s {
        Some(t) => Some(t@),
        None => None,
    }
}

/// Relies on `std::str::from_utf8`: it accepts exactly the valid UTF-8 byte
/// strings and yields their characters.
#[verifier::external_body]
pub(crate) fn decode_utf8(b: &Vec<u8>) -> (r: Option<String>)
    ensures
        opt_chars(r) == utf8_text(b@),
{
    std::str::from_utf8(b.as_slice()).ok().map(|s| s.to_string())
}

/// Character-wise equality of two strings.
pub fn str_equal(a: &str, b: &str) -> (r: bool)
    ensures
        r == (a@ == b@),
{
    let n = a.unicode_len();
    if n != b.unicode_len() {
        return false;
    }
    let mut i: usize = 0;
    while i < n
        invariant
            n == a@.len(),
            n == b@.len(),
            i <= n,
            forall|k: int| 0 <= k < i ==> a@[k] == b@[k],
        decreases n - i,
    {
        if a.get_char(i) != b.get_char(i) {
            return false;
        }
        i = i + 1;
    }
    assert(a@ =~= b@);
    true
}

/// Whether `dir` names a directory that holds `path`: `path` starts with
/// `dir` followed by a `/`.
pub open spec fn is_under(dir: Seq<char>, path: Seq<char>) -> bool {
    &&& dir.len() < path.len()
    &&& path.subrange(0, dir.len() as int) == dir
    &&& path[dir.len() as int] == '/'
}

/// Decides `is_under(dir@, path@)`.
pub fn path_is_under(dir: &str, path: &str) -> (r: bool)
    ensures
        r == is_under(dir@, path@),
{
    let n = dir.unicode_len();
    let m = path.unicode_len();
    if n >= m {
        return false;
    }
    let mut i: usize = 0;
    while i < n
        invariant
            n == dir@.len(),
            m == path@.len(),
            n < m,
            i <= n,
            forall|k: int| 0 <= k < i ==> dir@[k] == path@[k],
        decreases n - i,
    {
        if dir.get_char(i) != path.get_char(i) {
            assert(path@.subrange(0, n as int)[i as int] != dir@[i as int]);
            return false;
        }
        i = i + 1;
    }
    assert(path@.subrange(0, n as int) =~= dir@);
    path.get_char(n) == '/'
}

/// Lexicographic order of paths, character by character; a proper prefix
/// comes first.
pub open spec fn path_lt(a: Seq<char>, b: Seq<char>) -> bool
    decreases a.len(),
{
    if a.len() == 0 {
        b.len() > 0
    } else if b.len() == 0 {
        false
    } else if a[0] != b[0] {
        (a[0] as int) < (b[0] as int)
    } else {
        path_lt(a.drop_first(), b.drop_first())
    }
}

/// `path_lt` is asymmetric.
pub proof fn lemma_path_lt_asymmetric(a: Seq<char>, b: Seq<char>)
    ensures
        path_lt(a, b) ==> !path_lt(b, a),
    decreases a.len(),
{
    if a.len() > 0 && b.len() > 0 && a[0] == b[0] {
        lemma_path_lt_asymmetric(a.drop_first(), b.drop_first());
    }
}

/// `path_lt` is transitive.
pub proof fn lemma_path_lt_transitive(a: Seq<char>, b: Seq<char>, c: Seq<char>)
    ensures
        path_lt(a, b) && path_lt(b, c) ==> path_lt(a, c),
    decreases a.len(),
{
    if a.len() > 0 && b.len() > 0 && c.len() > 0 {
        lemma_path_lt_transitive(a.drop_first(), b.drop_first(), c.drop_first());
    }
}

/// Of two different paths, one comes first.
pub proof fn lemma_path_lt_total(a: Seq<char>, b: Seq<char>)
    ensures
        a != b ==> path_lt(a, b) || path_lt(b, a),
    decreases a.len(),
{
    if a.len() > 0 && b.len() > 0 && a[0] == b[0] {
        lemma_path_lt_total(a.drop_first(), b.drop_first());
        if a.drop_first() == b.drop_first() {
            assert(a =~= seq![a[0]] + a.drop_first());
            assert(b =~= seq![b[0]] + b.drop_first());
        }
    } else if a.len() == 0 && b.len() == 0 {
        assert(a =~= b);
    } else if a.len() > 0 && b.len() > 0 {
        assert(a[0] as int != b[0] as int);
    }
}

/// "Not after" is transitive.
pub proof fn lemma_path_le_transitive(a: Seq<char>, b: Seq<char>, c: Seq<char>)
    ensures
        !path_lt(b, a) && !path_lt(c, b) ==> !path_lt(c, a),
{
    lemma_path_lt_total(a, b);
    lemma_path_lt_total(b, c);
    lemma_path_lt_transitive(a, b, c);
    lemma_path_lt_transitive(c, a, b);
    lemma_path_lt_transitive(b, c, a);
    lemma_path_lt_asymmetric(a, c);
    lemma_path_lt_asymmetric(a, b);
    lemma_path_lt_asymmetric(b, c);
}

/// Decides `path_lt(a@, b@)`.
pub fn path_less(a: &str, b: &str) -> (r: bool)
    ensures
        r == path_lt(a@, b@),
{
    let n = a.unicode_len();
    let m = b.unicode_len();
    let mut i: usize = 0;
    assert(a@.subrange(0, n as int) =~= a@);
    assert(b@.subrange(0, m as int) =~= b@);
    while i < n && i < m
        invariant
            n == a@.len(),
            m == b@.len(),
            i <= n,
            i <= m,
            path_lt(a@, b@) == path_lt(a@.subrange(i as int, n as int), b@.subrange(i as int, m as int)),
        decreases n - i,
    {
        let x = a.get_char(i);
        let y = b.get_char(i);
        let ghost sa = a@.subrange(i as int, n as int);
        let ghost sb = b@.subrange(i as int, m as int);
        assert(sa[0] == x && sb[0] == y);
        if x != y {
            return (x as u32) < (y as u32);
        }
        assert(sa.drop_first() =~= a@.subrange(i + 1, n as int));
        assert(sb.drop_first() =~= b@.subrange(i + 1, m as int));
        i = i + 1;
    }
    i == n && i < m
}

} // verus!
