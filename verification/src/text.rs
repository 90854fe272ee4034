//! Comparisons of texts by their characters.

use vstd::prelude::*;

verus! {

/// `s` starts with `prefix`.
pub open spec fn starts_with(s: Seq<char>, prefix: Seq<char>) -> bool {
    prefix.len() <= s.len() && s.take(prefix.len() as int) == prefix
}

/// The relative path `p` lies strictly inside the relative path `q`: it is
/// `q`, a `/`, and more.
pub open spec fn is_below(p: Seq<char>, q: Seq<char>) -> bool {
    q.len() < p.len() && p.take(q.len() as int) == q && p[q.len() as int] == '/'
}

/// The relative path `p` is `q` or lies inside it.
pub open spec fn is_at_or_below(p: Seq<char>, q: Seq<char>) -> bool {
    p == q || is_below(p, q)
}

/// Does `s` start with `prefix`?
pub fn text_starts_with(s: &str, prefix: &str) -> (r: bool)
    ensures
        r == starts_with(s@, prefix@),
{
    let n = s.unicode_len();
    let m = prefix.unicode_len();
    if m > n {
        return false;
    }
    let mut k: usize = 0;
    while k < m
        invariant
            m == prefix@.len(),
            n == s@.len(),
            m <= n,
            k <= m,
            forall|j: int| 0 <= j < k ==> s@[j] == prefix@[j],
        decreases m - k,
    {
        if s.get_char(k) != prefix.get_char(k) {
            assert(s@.take(m as int)[k as int] != prefix@[k as int]);
            return false;
        }
        k = k + 1;
    }
    assert(s@.take(m as int) =~= prefix@);
    true
}

/// Is `s` the text `t`?
pub fn text_eq(s: &str, t: &str) -> (r: bool)
    ensures
        r == (s@ == t@),
{
    if s.unicode_len() != t.unicode_len() {
        return false;
    }
    let r = text_starts_with(s, t);
    assert(s@.take(t@.len() as int) =~= s@);
    r
}

/// Does the path `p` lie strictly inside the path `q`?
pub fn text_is_below(p: &str, q: &str) -> (r: bool)
    ensures
        r == is_below(p@, q@),
{
    let n = p.unicode_len();
    let m = q.unicode_len();
    if m >= n {
        return false;
    }
    text_starts_with(p, q) && p.get_char(m) == '/'
}

/// Is the path `p` the path `q` or inside it?
pub fn text_is_at_or_below(p: &str, q: &str) -> (r: bool)
    ensures
        r == is_at_or_below(p@, q@),
{
    text_eq(p, q) || text_is_below(p, q)
}

}
