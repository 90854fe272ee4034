//! The releases under `releases/`: the order they are listed in, which one
//! a revert goes back to, and which ones a cleanup removes.

use vstd::prelude::*;
use vstd::utf8::encode_utf8;

verus! {

/// Byte-wise lexicographic order, the order of `str` comparison: a proper
/// prefix comes first, otherwise the first differing byte decides.
pub open spec fn bytes_lt(a: Seq<u8>, b: Seq<u8>) -> bool
    decreases a.len(),
{
    if a.len() == 0 {
        b.len() > 0
    } else if b.len() == 0 {
        false
    } else if a[0] != b[0] {
        a[0] < b[0]
    } else {
        bytes_lt(a.drop_first(), b.drop_first())
    }
}

/// The key a release is sorted by: the bytes of its directory name.
pub open spec fn release_key(name: Seq<char>) -> Seq<u8> {
    encode_utf8(name)
}

/// The names of the releases as character sequences.
pub open spec fn name_views(names: Seq<String>) -> Seq<Seq<char>> {
    names.map_values(|s: String| s@)
}

/// Release `j` is listed before release `i`: its name sorts first, or the
/// names are equal and `j` was found first.
pub open spec fn listed_before(names: Seq<Seq<char>>, j: int, i: int) -> bool {
    ||| bytes_lt(release_key(names[j]), release_key(names[i]))
    ||| (release_key(names[j]) == release_key(names[i]) && j < i)
}

/// `order` lists every release exactly once, oldest name first: it is a
/// permutation of the positions of `names`, strictly increasing in
/// `listed_before`.
pub open spec fn is_release_order(names: Seq<Seq<char>>, order: Seq<usize>) -> bool {
    &&& order.len() == names.len()
    &&& forall|p: int| 0 <= p < order.len() ==> #[trigger] order[p] < names.len()
    &&& forall|i: usize| i < names.len() ==> #[trigger] order.contains(i)
    &&& forall|p: int, q: int|
        0 <= p < q < order.len() ==> listed_before(names, #[trigger] order[p] as int, #[trigger] order[q] as int)
}

pub proof fn lemma_bytes_lt_irreflexive(a: Seq<u8>)
    ensures
        !bytes_lt(a, a),
    decreases a.len(),
{
    if a.len() > 0 {
        lemma_bytes_lt_irreflexive(a.drop_first());
    }
}

pub proof fn lemma_bytes_lt_transitive(a: Seq<u8>, b: Seq<u8>, c: Seq<u8>)
    requires
        bytes_lt(a, b),
        bytes_lt(b, c),
    ensures
        bytes_lt(a, c),
    decreases a.len(),
{
    if a.len() > 0 && b.len() > 0 && c.len() > 0 && a[0] == b[0] && b[0] == c[0] {
        lemma_bytes_lt_transitive(a.drop_first(), b.drop_first(), c.drop_first());
    }
}

pub proof fn lemma_bytes_lt_total(a: Seq<u8>, b: Seq<u8>)
    ensures
        bytes_lt(a, b) || bytes_lt(b, a) || a == b,
    decreases a.len(),
{
    if a.len() > 0 && b.len() > 0 && a[0] == b[0] {
        lemma_bytes_lt_total(a.drop_first(), b.drop_first());
        if a.drop_first() == b.drop_first() {
            assert(a =~= seq![a[0]] + a.drop_first());
            assert(b =~= seq![b[0]] + b.drop_first());
        }
    } else if a.len() == 0 && b.len() == 0 {
        assert(a =~= b);
    }
}

pub proof fn lemma_bytes_lt_asymmetric(a: Seq<u8>, b: Seq<u8>)
    requires
        bytes_lt(a, b),
    ensures
        !bytes_lt(b, a),
{
    if bytes_lt(b, a) {
        lemma_bytes_lt_transitive(a, b, a);
        lemma_bytes_lt_irreflexive(a);
    }
}

/// `listed_before` is a strict total order on the positions of `names`.
pub proof fn lemma_listed_before_order(names: Seq<Seq<char>>, i: int, j: int, k: int)
    ensures
        !listed_before(names, i, i),
        listed_before(names, i, j) ==> !listed_before(names, j, i),
        listed_before(names, i, j) && listed_before(names, j, k) ==> listed_before(names, i, k),
        i != j ==> listed_before(names, i, j) || listed_before(names, j, i),
{
    let (ki, kj, kk) = (release_key(names[i]), release_key(names[j]), release_key(names[k]));
    lemma_bytes_lt_irreflexive(ki);
    lemma_bytes_lt_total(ki, kj);
    if bytes_lt(ki, kj) {
        lemma_bytes_lt_asymmetric(ki, kj);
    }
    if bytes_lt(kj, ki) {
        lemma_bytes_lt_asymmetric(kj, ki);
    }
    if listed_before(names, i, j) && listed_before(names, j, k) {
        if bytes_lt(ki, kj) && bytes_lt(kj, kk) {
            lemma_bytes_lt_transitive(ki, kj, kk);
        }
    }
}

/// Compares two names byte by byte, as `str` comparison does.
fn bytes_less(a: &[u8], b: &[u8]) -> (lt: bool)
    ensures
        lt == bytes_lt(a@, b@),
{
    let mut i: usize = 0;
    assert(a@.skip(0) =~= a@);
    assert(b@.skip(0) =~= b@);
    while i < a.len() && i < b.len()
        invariant
            i <= a@.len(),
            i <= b@.len(),
            bytes_lt(a@, b@) == bytes_lt(a@.skip(i as int), b@.skip(i as int)),
        decreases a@.len() - i,
    {
        if a[i] != b[i] {
            return a[i] < b[i];
        }
        assert(a@.skip(i as int).drop_first() =~= a@.skip(i + 1));
        assert(b@.skip(i as int).drop_first() =~= b@.skip(i + 1));
        i = i + 1;
    }
    a.len() == i && b.len() > i
}

/// Is release `j` listed before release `i`?
fn is_listed_before(names: &Vec<String>, j: usize, i: usize) -> (r: bool)
    requires
        j < names@.len(),
        i < names@.len(),
    ensures
        r == listed_before(name_views(names@), j as int, i as int),
{
    let kj = names[j].as_str().as_bytes();
    let ki = names[i].as_str().as_bytes();
    if bytes_less(kj, ki) {
        true
    } else if bytes_less(ki, kj) {
        proof {
            lemma_bytes_lt_asymmetric(ki@, kj@);
            lemma_bytes_lt_irreflexive(ki@);
        }
        false
    } else {
        proof {
            lemma_bytes_lt_total(kj@, ki@);
        }
        j < i
    }
}

/// Puts the releases found in `releases/` in the order the tool works
/// with: ascending by name, compared as `str` (so the timestamp names
/// sort oldest first), keeping the listing order of equal names. The
/// result holds positions into `names`.
pub fn list_release_dirs_sorted(names: &Vec<String>) -> (order: Vec<usize>)
    ensures
        is_release_order(name_views(names@), order@),
{
    let ghost v = name_views(names@);
    let n = names.len();
    let mut order: Vec<usize> = Vec::new();
    let mut i: usize = 0;
    while i < n
        invariant
            n == names@.len(),
            v == name_views(names@),
            i <= n,
            order@.len() == i,
            forall|p: int| 0 <= p < order@.len() ==> #[trigger] order@[p] < i,
            forall|j: usize| j < i ==> #[trigger] order@.contains(j),
            forall|p: int, q: int|
                0 <= p < q < order@.len() ==> listed_before(v, #[trigger] order@[p] as int, #[trigger] order@[q] as int),
        decreases n - i,
    {
        let mut pos: usize = 0;
        while pos < order.len() && is_listed_before(names, order[pos], i)
            invariant
                n == names@.len(),
                v == name_views(names@),
                i < n,
                pos <= order@.len(),
                forall|p: int| 0 <= p < order@.len() ==> #[trigger] order@[p] < i,
                forall|q: int| 0 <= q < pos ==> listed_before(v, #[trigger] order@[q] as int, i as int),
            decreases order@.len() - pos,
        {
            pos = pos + 1;
        }
        let ghost old_order = order@;
        proof {
            old_order.insert_ensures(pos as int, i);
            if pos < old_order.len() {
                lemma_listed_before_order(v, old_order[pos as int] as int, i as int, 0);
                assert forall|q: int| pos <= q < old_order.len() implies listed_before(
                    v,
                    i as int,
                    #[trigger] old_order[q] as int,
                ) by {
                    if q > pos {
                        lemma_listed_before_order(v, i as int, old_order[pos as int] as int, old_order[q] as int);
                    }
                }
            }
        }
        order.insert(pos, i);
        proof {
            let o = order@;
            assert forall|p: int, q: int|
                0 <= p < q < o.len() implies listed_before(v, #[trigger] o[p] as int, #[trigger] o[q] as int) by {
                if q < pos {
                    assert(o[p] == old_order[p] && o[q] == old_order[q]);
                } else if q == pos {
                    assert(o[p] == old_order[p]);
                } else if p < pos {
                    assert(o[p] == old_order[p] && o[q] == old_order[q - 1]);
                    lemma_listed_before_order(v, o[p] as int, i as int, o[q] as int);
                    if pos < old_order.len() {
                        assert(listed_before(v, i as int, old_order[q - 1] as int));
                    }
                } else if p == pos {
                    assert(o[q] == old_order[q - 1]);
                } else {
                    assert(o[p] == old_order[p - 1] && o[q] == old_order[q - 1]);
                }
            }
            assert forall|j: usize| j < i + 1 implies #[trigger] o.contains(j) by {
                if j == i {
                    assert(o[pos as int] == j);
                } else {
                    assert(old_order.contains(j));
                    let p = choose|p: int| 0 <= p < old_order.len() && old_order[p] == j;
                    if p < pos {
                        assert(o[p] == j);
                    } else {
                        assert(o[p + 1] == j);
                    }
                }
            }
            assert forall|p: int| 0 <= p < o.len() implies #[trigger] o[p] < i + 1 by {
                if p < pos {
                    assert(o[p] == old_order[p]);
                } else if p > pos {
                    assert(o[p] == old_order[p - 1]);
                }
            }
        }
        i = i + 1;
    }
    order
}

/// Two release orders of the same names are the same: the order of the
/// releases is fully determined by their names and listing positions.
pub proof fn lemma_release_order_unique(names: Seq<Seq<char>>, o1: Seq<usize>, o2: Seq<usize>)
    requires
        is_release_order(names, o1),
        is_release_order(names, o2),
    ensures
        o1 == o2,
{
    if o1 != o2 {
        let p = choose|p: int| 0 <= p < o1.len() && o1[p] != o2[p] && forall|k: int|
            0 <= k < p ==> o1[k] == o2[k];
        assert(exists|p: int| 0 <= p < o1.len() && o1[p] != o2[p]) by {
            assert(!(o1 =~= o2));
        }
        lemma_first_difference(o1, o2);
        let a = o1[p];
        let b = o2[p];
        assert(o1.contains(b));
        assert(o2.contains(a));
        let q = choose|q: int| 0 <= q < o1.len() && o1[q] == b;
        let r = choose|r: int| 0 <= r < o2.len() && o2[r] == a;
        if q < p {
            assert(o2[q] == b);
            assert(listed_before(names, o2[q] as int, o2[p] as int));
            lemma_listed_before_order(names, b as int, b as int, 0);
        }
        if r < p {
            assert(o1[r] == a);
            assert(listed_before(names, o1[r] as int, o1[p] as int));
            lemma_listed_before_order(names, a as int, a as int, 0);
        }
        assert(q > p && r > p);
        assert(listed_before(names, a as int, b as int));
        assert(listed_before(names, b as int, a as int));
        lemma_listed_before_order(names, a as int, b as int, 0);
    }
}

proof fn lemma_first_difference(o1: Seq<usize>, o2: Seq<usize>)
    requires
        o1.len() == o2.len(),
        exists|p: int| 0 <= p < o1.len() && o1[p] != o2[p],
    ensures
        exists|p: int| 0 <= p < o1.len() && o1[p] != o2[p] && forall|k: int| 0 <= k < p ==> o1[k] == o2[k],
    decreases o1.len(),
{
    if o1[0] != o2[0] {
        assert(forall|k: int| 0 <= k < 0 ==> o1[k] == o2[k]);
    } else {
        let (t1, t2) = (o1.drop_first(), o2.drop_first());
        let p = choose|p: int| 0 <= p < o1.len() && o1[p] != o2[p];
        assert(t1[p - 1] != t2[p - 1]);
        lemma_first_difference(t1, t2);
        let p2 = choose|p2: int| 0 <= p2 < t1.len() && t1[p2] != t2[p2] && forall|k: int| 0 <= k < p2 ==> t1[k] == t2[k];
        assert(o1[p2 + 1] != o2[p2 + 1]);
        assert forall|k: int| 0 <= k < p2 + 1 implies o1[k] == o2[k] by {
            if k > 0 {
                assert(t1[k - 1] == t2[k - 1]);
            }
        }
    }
}

/// The release a revert goes back to: every other release but one is
/// listed before it, and that one (the newest) is listed after it.
pub open spec fn is_previous_release(names: Seq<Seq<char>>, r: int) -> bool {
    &&& 0 <= r < names.len()
    &&& exists|m: int| {
        &&& 0 <= m < names.len()
        &&& m != r
        &&& listed_before(names, r, m)
        &&& forall|j: int| 0 <= j < names.len() && j != r && j != m ==> listed_before(names, j, r)
    }
}

/// A revert was asked for with fewer than two releases.
#[derive(Clone, Copy, Debug, PartialEq, Eq, Structural)]
pub struct NotEnoughReleases;

impl NotEnoughReleases {
    /// The message shown for this error.
    pub fn message(&self) -> (m: String)
        ensures
            m@ == "No hay suficientes releases para revertir (se requieren al menos 2)"@,
    {
        String::from_str("No hay suficientes releases para revertir (se requieren al menos 2)")
    }
}

/// Picks the release that `current` goes back to on a revert: the one
/// just before the newest in release order. At least two releases are
/// needed.
pub fn do_revert(names: &Vec<String>) -> (res: Result<usize, NotEnoughReleases>)
    ensures
        res is Err <==> names@.len() < 2,
        match res {
            Ok(r) => is_previous_release(name_views(names@), r as int),
            Err(_) => true,
        },
{
    let order = list_release_dirs_sorted(names);
    let n = order.len();
    if n < 2 {
        return Err(NotEnoughReleases);
    }
    let r = order[n - 2];
    proof {
        let v = name_views(names@);
        let o = order@;
        let m = o[n - 1];
        assert(listed_before(v, r as int, m as int));
        lemma_listed_before_order(v, r as int, r as int, 0);
        assert forall|j: int| 0 <= j < v.len() && j != r && j != m implies listed_before(v, j, r as int) by {
            assert(o.contains(j as usize));
            let p = choose|p: int| 0 <= p < o.len() && o[p] == j as usize;
            assert(p != n - 1 && p != n - 2);
        }
        assert(m != r);
    }
    Ok(r)
}

/// `--keep 0` was given: at least one release must stay.
#[derive(Clone, Copy, Debug, PartialEq, Eq, Structural)]
pub struct KeepZero;

impl KeepZero {
    /// The message shown for this error.
    pub fn message(&self) -> (m: String)
        ensures
            m@ == "--keep debe ser >= 1"@,
    {
        String::from_str("--keep debe ser >= 1")
    }
}

/// How many releases a cleanup removes: all but the `keep` newest, taken
/// from the front of the release order. `keep` must be at least 1.
pub open spec fn removal_count(n: nat, keep: nat) -> nat {
    if n <= keep {
        0
    } else {
        (n - keep) as nat
    }
}

/// Decides a cleanup of `releases/`: refuses `keep == 0`, and otherwise
/// gives the releases to remove, oldest first, as positions into `names`.
pub fn cleanup_old_releases(names: &Vec<String>, keep: usize) -> (res: Result<Vec<usize>, KeepZero>)
    ensures
        res is Err <==> keep == 0,
        match res {
            Ok(removed) => exists|order: Seq<usize>|
                is_release_order(name_views(names@), order) && removed@ == order.take(
                    removal_count(names@.len(), keep as nat) as int,
                ),
            Err(_) => true,
        },
{
    if keep == 0 {
        return Err(KeepZero);
    }
    let mut order = list_release_dirs_sorted(names);
    let ghost full = order@;
    let n = order.len();
    if n > keep {
        order.truncate(n - keep);
    } else {
        order.truncate(0);
    }
    assert(order@ =~= full.take(removal_count(names@.len(), keep as nat) as int));
    Ok(order)
}

/// A cleanup keeps the `keep` newest releases (or all of them when there
/// are fewer) and removes the rest: every removed release is listed
/// before every kept one.
pub proof fn lemma_cleanup_keeps_newest(names: Seq<Seq<char>>, order: Seq<usize>, keep: nat)
    requires
        is_release_order(names, order),
        keep >= 1,
    ensures
        ({
            let c = removal_count(names.len(), keep) as int;
            &&& names.len() - c == if names.len() <= keep { names.len() as int } else { keep as int }
            &&& forall|p: int, q: int|
                0 <= p < c <= q < names.len() ==> listed_before(names, order[p] as int, order[q] as int)
        }),
{
}

/// A cleanup right after another removes nothing: the first keeps at most
/// `keep` releases, so however the rest is listed next, the count to
/// remove is zero and the removal list is empty.
pub proof fn lemma_second_cleanup_removes_nothing(
    names: Seq<Seq<char>>,
    keep: nat,
    remaining: Seq<Seq<char>>,
    order: Seq<usize>,
)
    requires
        keep >= 1,
        remaining.len() == names.len() - removal_count(names.len(), keep),
        is_release_order(remaining, order),
    ensures
        remaining.len() <= keep,
        removal_count(remaining.len(), keep) == 0,
        order.take(removal_count(remaining.len(), keep) as int) == Seq::<usize>::empty(),
{
    assert(order.take(0) =~= Seq::<usize>::empty());
}

}
