//! Stable ordering of a list by a comparison: the positions of the items in
//! the order a stable sort leaves them.

use vstd::prelude::*;

verus! {

/// `less` is a strict weak order on the positions below `n`: no position is
/// before itself, two positions are never each before the other, and a
/// position before `b` is before every `c` that is not before `b`.
pub open spec fn weak_order(less: spec_fn(int, int) -> bool, n: int) -> bool {
    &&& forall|a: int| 0 <= a < n ==> !#[trigger] less(a, a)
    &&& forall|a: int, b: int| 0 <= a < n && 0 <= b < n && #[trigger] less(a, b) ==> !less(b, a)
    &&& forall|a: int, b: int, c: int|
        0 <= a < n && 0 <= b < n && 0 <= c < n && #[trigger] less(a, b) && !less(c, b) ==> #[trigger] less(a, c)
}

/// Position `a` comes before position `b` in a stable sort by `less`:
/// it is less, or neither is less and it came first.
pub open spec fn stably_before(less: spec_fn(int, int) -> bool, a: int, b: int) -> bool {
    less(a, b) || (!less(b, a) && a < b)
}

/// `r` lists each position below `n` once, in the order of a stable sort by `less`.
pub open spec fn is_stable_order(r: Seq<usize>, less: spec_fn(int, int) -> bool, n: int) -> bool {
    &&& r.len() == n
    &&& forall|k: int| 0 <= k < n ==> r[k] < n
    &&& forall|t: usize| t < n ==> #[trigger] r.contains(t)
    &&& forall|i: int, j: int| 0 <= i < j < n ==> stably_before(less, r[i] as int, r[j] as int)
}

/// The positions `0..n` in the order of a stable sort by `lt`, whose answers
/// are those of `less`.
pub fn stable_order(n: usize, lt: impl Fn(usize, usize) -> bool, Ghost(less): Ghost<spec_fn(int, int) -> bool>) -> (r: Vec<usize>)
    requires
        forall|a: usize, b: usize| a < n && b < n ==> #[trigger] lt.requires((a, b)),
        forall|a: usize, b: usize, x: bool| a < n && b < n && #[trigger] lt.ensures((a, b), x) ==> x == less(a as int, b as int),
        weak_order(less, n as int),
    ensures
        is_stable_order(r@, less, n as int),
{
    let mut r: Vec<usize> = Vec::new();
    let mut m: usize = 0;
    while m < n
        invariant
            m <= n,
            forall|a: usize, b: usize| a < n && b < n ==> #[trigger] lt.requires((a, b)),
            forall|a: usize, b: usize, x: bool| a < n && b < n && #[trigger] lt.ensures((a, b), x) ==> x == less(a as int, b as int),
            weak_order(less, n as int),
            is_stable_order(r@, less, m as int),
        decreases n - m,
    {
        let mut p: usize = 0;
        let mut found = false;
        while p < m && !found
            invariant
                m < n,
                p <= m,
                r@.len() == m,
                forall|k: int| 0 <= k < m ==> r@[k] < m,
                forall|a: usize, b: usize| a < n && b < n ==> #[trigger] lt.requires((a, b)),
                forall|a: usize, b: usize, x: bool| a < n && b < n && #[trigger] lt.ensures((a, b), x) ==> x == less(a as int, b as int),
                forall|k: int| 0 <= k < p ==> !less(m as int, #[trigger] r@[k] as int),
                found ==> p < m && less(m as int, r@[p as int] as int),
            decreases m - p, if found { 0int } else { 1int },
        {
            let x = r[p];
            if lt(m, x) {
                found = true;
            } else {
                p = p + 1;
            }
        }
        let ghost old_r = r@;
        r.insert(p, m);
        proof {
            assert forall|t: usize| t < m + 1 implies #[trigger] r@.contains(t) by {
                if t == m {
                    assert(r@[p as int] == m);
                } else {
                    assert(old_r.contains(t));
                    let w = choose|w: int| 0 <= w < old_r.len() && old_r[w] == t;
                    if w < p {
                        assert(r@[w] == t);
                    } else {
                        assert(r@[w + 1] == t);
                    }
                }
            }
            assert forall|i: int, j: int| 0 <= i < j < m + 1 implies stably_before(less, r@[i] as int, r@[j] as int) by {
                if j < p {
                    assert(r@[i] == old_r[i] && r@[j] == old_r[j]);
                } else if i > p {
                    assert(r@[i] == old_r[i - 1] && r@[j] == old_r[j - 1]);
                } else if i < p && j > p {
                    assert(r@[i] == old_r[i] && r@[j] == old_r[j - 1]);
                } else if i == p {
                    // the new position goes before everything after it
                    let x = old_r[j - 1] as int;
                    let y = old_r[p as int] as int;
                    assert(less(m as int, y));
                    if j - 1 > p {
                        assert(stably_before(less, y, x));
                        if less(y, x) {
                            assert(!less(x, y));
                        }
                    }
                    assert(less(m as int, x));
                } else {
                    // everything before the new position stays before it
                    assert(j == p);
                    assert(!less(m as int, old_r[i] as int));
                }
            }
        }
        m = m + 1;
    }
    r
}


} // verus!
