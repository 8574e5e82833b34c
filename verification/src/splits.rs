//! The split of labelled runs into training and validation runs.
//!
//! Positive runs (first label one) and the others are split separately:
//! each group in order of run id, the first share of it trains and the rest
//! validates; at least one run of a group trains, and a group of two runs
//! or more keeps at least one for validation. Each side then lists its runs
//! by id.
//!
//! The share of a group is its size times the training ratio, rounded; the
//! caller computes it from the sizes `label_group_sizes` gives.

use vstd::prelude::*;

use crate::order::{is_stable_order, stable_order, stably_before};
use crate::text::{chars_of, lemma_text_lt_order, text_less, text_lt};

verus! {

/// What the split reads of a run: its id and the label of its first sample.
#[derive(Debug, Clone)]
pub struct RunLabel {
    pub run_id: String,
    pub first_label: Option<u8>,
}

/// A run is positive when its first sample is labelled one.
pub open spec fn positive(r: RunLabel) -> bool {
    r.first_label == Some(1u8)
}

/// The positions of the runs of one label group.
pub open spec fn group_set(runs: Seq<RunLabel>, pos: bool) -> Set<int> {
    Set::new(|q: int| 0 <= q < runs.len() && positive(runs[q]) == pos)
}

/// Run `a` comes before run `b` of its group: a smaller id, or the same id
/// and an earlier position.
pub open spec fn id_before(runs: Seq<RunLabel>, a: int, b: int) -> bool {
    text_lt(runs[a].run_id@, runs[b].run_id@) || (runs[a].run_id@ == runs[b].run_id@ && a < b)
}

/// The number of runs of its group that come before a run.
pub open spec fn rank_in_group(runs: Seq<RunLabel>, p: int) -> nat {
    Set::new(
        |q: int| 0 <= q < runs.len() && positive(runs[q]) == positive(runs[p]) && id_before(runs, q, p),
    ).len()
}

/// The number of runs of a group of `len` that train, for a rounded share.
pub open spec fn train_share(len: int, rounded: int) -> int {
    if len >= 2 {
        if rounded < 1 {
            1
        } else if rounded > len - 1 {
            len - 1
        } else {
            rounded
        }
    } else {
        1
    }
}

/// Whether a run trains: fewer runs of its group come before it than the
/// group's share.
pub open spec fn in_training(runs: Seq<RunLabel>, p: int, pos_share: int, neg_share: int) -> bool {
    let pos = positive(runs[p]);
    rank_in_group(runs, p) < train_share(
        group_set(runs, pos).len() as int,
        if pos {
            pos_share
        } else {
            neg_share
        },
    )
}

/// The order of a side: by id; for the same id a positive run first, then
/// by position.
pub open spec fn side_before(runs: Seq<RunLabel>, a: int, b: int) -> bool {
    let (ia, ib) = (runs[a].run_id@, runs[b].run_id@);
    text_lt(ia, ib) || (ia == ib && ((positive(runs[a]) && !positive(runs[b])) || (positive(runs[a])
        == positive(runs[b]) && a < b)))
}

/// `r` lists the runs of one side, each once, in the side's order.
pub open spec fn is_side(r: Seq<usize>, runs: Seq<RunLabel>, pos_share: int, neg_share: int, training: bool) -> bool {
    &&& forall|k: int|
        0 <= k < r.len() ==> #[trigger] r[k] < runs.len() && in_training(runs, r[k] as int, pos_share, neg_share)
            == training
    &&& forall|p: int|
        0 <= p < runs.len() && in_training(runs, p, pos_share, neg_share) == training ==> r.contains(
            p as usize,
        )
    &&& forall|i: int, j: int| 0 <= i < j < r.len() ==> side_before(runs, r[i] as int, r[j] as int)
}

/// A list of distinct positions holds as many positions as the set it lists.
proof fn lemma_list_counts_set(s: Seq<usize>, set: Set<int>)
    requires
        forall|a: int, b: int| 0 <= a < s.len() && 0 <= b < s.len() && a != b ==> s[a] != s[b],
        forall|k: int| 0 <= k < s.len() ==> set.contains(#[trigger] s[k] as int),
        forall|x: int| #[trigger] set.contains(x) ==> exists|k: int| 0 <= k < s.len() && s[k] as int == x,
    ensures
        s.len() == set.len(),
        set.finite(),
{
    let t = s.map_values(|x: usize| x as int);
    assert(t.no_duplicates()) by {
        assert forall|a: int, b: int| 0 <= a < t.len() && 0 <= b < t.len() && a != b implies t[a] != t[b] by {
            assert(s[a] != s[b]);
        }
    }
    assert(t.to_set() =~= set) by {
        assert forall|x: int| #[trigger] set.contains(x) implies t.to_set().contains(x) by {
            let k = choose|k: int| 0 <= k < s.len() && s[k] as int == x;
            assert(t[k] == x);
        }
    }
    t.unique_seq_to_set();
}

proof fn lemma_id_before_order(runs: Seq<RunLabel>, a: int, b: int, c: int)
    ensures
        !id_before(runs, a, a),
        id_before(runs, a, b) ==> !id_before(runs, b, a),
        id_before(runs, a, b) && id_before(runs, b, c) ==> id_before(runs, a, c),
        a != b ==> id_before(runs, a, b) || id_before(runs, b, a),
{
    lemma_text_lt_order(runs[a].run_id@, runs[b].run_id@, runs[c].run_id@);
    lemma_text_lt_order(runs[b].run_id@, runs[a].run_id@, runs[c].run_id@);
}

/// The positions, in increasing order, of the runs of one label group.
fn group_positions(runs: &Vec<RunLabel>, pos: bool) -> (r: Vec<usize>)
    ensures
        forall|k: int| 0 <= k < r@.len() ==> #[trigger] r@[k] < runs@.len() && positive(runs@[r@[k] as int]) == pos,
        forall|a: int, b: int| 0 <= a < b < r@.len() ==> r@[a] < r@[b],
        forall|q: int| 0 <= q < runs@.len() && positive(runs@[q]) == pos ==> r@.contains(q as usize),
        r@.len() == group_set(runs@, pos).len(),
{
    let mut r: Vec<usize> = Vec::new();
    let mut i: usize = 0;
    while i < runs.len()
        invariant
            i <= runs@.len(),
            forall|k: int| 0 <= k < r@.len() ==> #[trigger] r@[k] < i && positive(runs@[r@[k] as int]) == pos,
            forall|a: int, b: int| 0 <= a < b < r@.len() ==> r@[a] < r@[b],
            forall|q: int| 0 <= q < i && positive(runs@[q]) == pos ==> r@.contains(q as usize),
        decreases runs@.len() - i,
    {
        let is_pos = match runs[i].first_label {
            Some(l) => l == 1,
            None => false,
        };
        if is_pos == pos {
            let ghost before = r@;
            r.push(i);
            proof {
                assert forall|q: int| 0 <= q < i && positive(runs@[q]) == pos implies r@.contains(q as usize) by {
                    let w = choose|w: int| 0 <= w < before.len() && before[w] == q as usize;
                    assert(r@[w] == q as usize);
                }
                assert(r@[r@.len() - 1] == i);
            }
        }
        i = i + 1;
    }
    proof {
        let set = group_set(runs@, pos);
        assert forall|a: int, b: int| 0 <= a < r@.len() && 0 <= b < r@.len() && a != b implies r@[a] != r@[b] by {
            if a < b {
                assert(r@[a] < r@[b]);
            } else {
                assert(r@[b] < r@[a]);
            }
        }
        assert forall|x: int| #[trigger] set.contains(x) implies exists|k: int| 0 <= k < r@.len() && r@[k] as int == x by {
            assert(r@.contains(x as usize));
        }
        lemma_list_counts_set(r@, set);
    }
    r
}

/// The runs of each label group: the number of positive runs and of the others.
pub fn label_group_sizes(runs: &Vec<RunLabel>) -> (r: (usize, usize))
    ensures
        r.0 == group_set(runs@, true).len(),
        r.1 == group_set(runs@, false).len(),
{
    let p = group_positions(runs, true);
    let q = group_positions(runs, false);
    (p.len(), q.len())
}

/// The positions of a group in its order: by id, ties by position.
fn sort_group(runs: &Vec<RunLabel>, ids: &Vec<Vec<char>>, g: &Vec<usize>) -> (r: Vec<usize>)
    requires
        ids@.len() == runs@.len(),
        forall|k: int| 0 <= k < ids@.len() ==> (#[trigger] ids@[k])@ == runs@[k].run_id@,
        forall|k: int| 0 <= k < g@.len() ==> #[trigger] g@[k] < runs@.len(),
        forall|a: int, b: int| 0 <= a < b < g@.len() ==> g@[a] < g@[b],
    ensures
        r@.len() == g@.len(),
        forall|k: int| 0 <= k < r@.len() ==> g@.contains(#[trigger] r@[k]),
        forall|k: int| 0 <= k < g@.len() ==> r@.contains(#[trigger] g@[k]),
        forall|i: int, j: int| 0 <= i < j < r@.len() ==> id_before(runs@, r@[i] as int, r@[j] as int),
{
    let m = g.len();
    let ghost within = |a: int, b: int| text_lt(runs@[g@[a] as int].run_id@, runs@[g@[b] as int].run_id@);
    proof {
        assert forall|a: int| 0 <= a < m implies !#[trigger] within(a, a) by {
            lemma_text_lt_order(runs@[g@[a] as int].run_id@, runs@[g@[a] as int].run_id@, runs@[g@[a] as int].run_id@);
        }
        assert forall|a: int, b: int| 0 <= a < m && 0 <= b < m && #[trigger] within(a, b) implies !within(
            b,
            a,
        ) by {
            lemma_text_lt_order(runs@[g@[a] as int].run_id@, runs@[g@[b] as int].run_id@, runs@[g@[a] as int].run_id@);
        }
        assert forall|a: int, b: int, c: int|
            0 <= a < m && 0 <= b < m && 0 <= c < m && #[trigger] within(a, b) && !within(c, b) implies #[trigger] within(
            a,
            c,
        ) by {
            let (x, y, z) = (runs@[g@[a] as int].run_id@, runs@[g@[b] as int].run_id@, runs@[g@[c] as int].run_id@);
            lemma_text_lt_order(x, y, z);
            lemma_text_lt_order(y, z, x);
            lemma_text_lt_order(z, y, x);
        }
    }
    let lt = |a: usize, b: usize| -> (x: bool)
        requires
            a < m,
            b < m,
            m == g@.len(),
            ids@.len() == runs@.len(),
            forall|k: int| 0 <= k < ids@.len() ==> (#[trigger] ids@[k])@ == runs@[k].run_id@,
            forall|k: int| 0 <= k < g@.len() ==> #[trigger] g@[k] < runs@.len(),
        ensures
            x == text_lt(runs@[g@[a as int] as int].run_id@, runs@[g@[b as int] as int].run_id@),
        { text_less(&ids[g[a]], &ids[g[b]]) };
    let o = stable_order(m, lt, Ghost(within));
    let mut r: Vec<usize> = Vec::new();
    let mut t: usize = 0;
    while t < m
        invariant
            m == g@.len(),
            t <= m,
            is_stable_order(o@, within, m as int),
            r@.len() == t,
            forall|k: int| 0 <= k < t ==> r@[k] == g@[o@[k] as int],
        decreases m - t,
    {
        r.push(g[o[t]]);
        t = t + 1;
    }
    proof {
        assert forall|i: int, j: int| 0 <= i < j < r@.len() implies id_before(runs@, r@[i] as int, r@[j] as int) by {
            let (x, y) = (o@[i] as int, o@[j] as int);
            assert(stably_before(within, x, y));
            lemma_text_lt_order(runs@[g@[x] as int].run_id@, runs@[g@[y] as int].run_id@, runs@[g@[x] as int].run_id@);
            if x < y {
                assert(g@[x] < g@[y]);
            } else if y < x {
                assert(g@[y] < g@[x]);
            }
        }
        assert forall|k: int| 0 <= k < r@.len() implies g@.contains(#[trigger] r@[k]) by {
            assert(r@[k] == g@[o@[k] as int]);
        }
        assert forall|k: int| 0 <= k < g@.len() implies r@.contains(#[trigger] g@[k]) by {
            assert(o@.contains(k as usize));
            let v = choose|v: int| 0 <= v < o@.len() && o@[v] == k as usize;
            assert(r@[v] == g@[k]);
        }
    }
    r
}

/// In a group listed in its order, a run's rank is its place.
proof fn lemma_rank_is_place(runs: Seq<RunLabel>, s: Seq<usize>, pos: bool, t: int)
    requires
        runs.len() <= usize::MAX,
        0 <= t < s.len(),
        forall|k: int| 0 <= k < s.len() ==> #[trigger] s[k] < runs.len() && positive(runs[s[k] as int]) == pos,
        forall|q: int| 0 <= q < runs.len() && positive(runs[q]) == pos ==> s.contains(q as usize),
        forall|i: int, j: int| 0 <= i < j < s.len() ==> id_before(runs, s[i] as int, s[j] as int),
    ensures
        rank_in_group(runs, s[t] as int) == t,
{
    let p = s[t] as int;
    let set = Set::new(
        |q: int| 0 <= q < runs.len() && positive(runs[q]) == positive(runs[p]) && id_before(runs, q, p),
    );
    let pre = s.take(t);
    assert forall|a: int, b: int| 0 <= a < pre.len() && 0 <= b < pre.len() && a != b implies pre[a] != pre[b] by {
        if a < b {
            lemma_id_before_order(runs, s[a] as int, s[b] as int, s[a] as int);
        } else {
            lemma_id_before_order(runs, s[b] as int, s[a] as int, s[b] as int);
        }
    }
    assert forall|k: int| 0 <= k < pre.len() implies set.contains(#[trigger] pre[k] as int) by {
        assert(pre[k] == s[k]);
    }
    assert forall|x: int| #[trigger] set.contains(x) implies exists|k: int| 0 <= k < pre.len() && pre[k] as int == x by {
        assert(s.contains(x as usize));
        let k = choose|k: int| 0 <= k < s.len() && s[k] == x as usize;
        assert(s[k] as int == x);
        if k == t {
            lemma_id_before_order(runs, p, p, p);
            assert(false);
        }
        if k > t {
            assert(id_before(runs, s[t] as int, s[k] as int));
            lemma_id_before_order(runs, p, x, p);
            assert(false);
        }
        assert(pre[k] == s[k]);
    }
    lemma_list_counts_set(pre, set);
}

/// The runs of a group of `n` before a cut at `t`.
pub open spec fn cut(t: int, n: int) -> int {
    if t > n {
        n
    } else {
        t
    }
}

/// The number of runs that train: the share of each label group that has runs.
pub open spec fn trained_count(pos_len: int, neg_len: int, pos_share: int, neg_share: int) -> int {
    (if pos_len > 0 {
        train_share(pos_len, pos_share)
    } else {
        0
    }) + (if neg_len > 0 {
        train_share(neg_len, neg_share)
    } else {
        0
    })
}

/// The training and the validation runs, as positions of the runs: positive
/// runs and the others are split separately, the first `train_share` of
/// each group in id order training, then each side lists its runs by id,
/// a positive run before a negative one of the same id.
pub fn split_runs(runs: &Vec<RunLabel>, pos_share: usize, neg_share: usize) -> (r: (Vec<usize>, Vec<usize>))
    ensures
        is_side(r.0@, runs@, pos_share as int, neg_share as int, true),
        is_side(r.1@, runs@, pos_share as int, neg_share as int, false),
        r.0@.len() == trained_count(
            group_set(runs@, true).len() as int,
            group_set(runs@, false).len() as int,
            pos_share as int,
            neg_share as int,
        ),
        r.0@.len() + r.1@.len() == runs@.len(),
{
    let n = runs.len();
    let mut ids: Vec<Vec<char>> = Vec::new();
    let mut i: usize = 0;
    while i < n
        invariant
            n == runs@.len(),
            i <= n,
            ids@.len() == i,
            forall|k: int| 0 <= k < i ==> (#[trigger] ids@[k])@ == runs@[k].run_id@,
        decreases n - i,
    {
        ids.push(chars_of(runs[i].run_id.as_str()));
        i = i + 1;
    }
    let gp = group_positions(runs, true);
    let gn = group_positions(runs, false);
    let sp = sort_group(runs, &ids, &gp);
    let sn = sort_group(runs, &ids, &gn);
    let tp = share_of(sp.len(), pos_share);
    let tn = share_of(sn.len(), neg_share);
    proof {
        assert forall|k: int| 0 <= k < sp@.len() implies #[trigger] sp@[k] < runs@.len() && positive(runs@[sp@[k] as int]) == true by {
            assert(gp@.contains(sp@[k]));
        }
        assert forall|q: int| 0 <= q < runs@.len() && positive(runs@[q]) == true implies sp@.contains(q as usize) by {
            let w = choose|w: int| 0 <= w < gp@.len() && gp@[w] == q as usize;
            assert(sp@.contains(gp@[w]));
        }
        assert forall|k: int| 0 <= k < sn@.len() implies #[trigger] sn@[k] < runs@.len() && positive(runs@[sn@[k] as int]) == false by {
            assert(gn@.contains(sn@[k]));
        }
        assert forall|q: int| 0 <= q < runs@.len() && positive(runs@[q]) == false implies sn@.contains(q as usize) by {
            let w = choose|w: int| 0 <= w < gn@.len() && gn@[w] == q as usize;
            assert(sn@.contains(gn@[w]));
        }
        assert forall|t: int| 0 <= t < sp@.len() implies #[trigger] in_training(runs@, sp@[t] as int, pos_share as int, neg_share as int) == (t < tp) by {
            lemma_rank_is_place(runs@, sp@, true, t);
        }
        assert forall|t: int| 0 <= t < sn@.len() implies #[trigger] in_training(runs@, sn@[t] as int, pos_share as int, neg_share as int) == (t < tn) by {
            lemma_rank_is_place(runs@, sn@, false, t);
        }
    }
    proof {
        lemma_groups_cover_runs(runs@);
    }
    let train = side(runs, &ids, &sp, tp, &sn, tn, Ghost(pos_share as int), Ghost(neg_share as int), true);
    let valid = side(runs, &ids, &sp, tp, &sn, tn, Ghost(pos_share as int), Ghost(neg_share as int), false);
    (train, valid)
}

/// The number of runs of a group of `len` that train, for a rounded share.
fn share_of(len: usize, rounded: usize) -> (r: usize)
    ensures
        r == train_share(len as int, rounded as int),
        len >= 1 ==> r <= len,
{
    if len >= 2 {
        if rounded < 1 {
            1
        } else if rounded > len - 1 {
            len - 1
        } else {
            rounded
        }
    } else {
        1
    }
}

/// The front of a list up to a cut, or the rest from it.
fn part(s: &Vec<usize>, cut: usize, front: bool) -> (r: Vec<usize>)
    requires
        cut <= s@.len(),
    ensures
        r@ == (if front {
            s@.take(cut as int)
        } else {
            s@.skip(cut as int)
        }),
{
    let mut r: Vec<usize> = Vec::new();
    let (from, to) = if front {
        (0, cut)
    } else {
        (cut, s.len())
    };
    let mut t: usize = from;
    while t < to
        invariant
            from <= t <= to <= s@.len(),
            r@ == s@.subrange(from as int, t as int),
        decreases to - t,
    {
        r.push(s[t]);
        t = t + 1;
        assert(r@ =~= s@.subrange(from as int, t as int));
    }
    assert(s@.take(cut as int) =~= s@.subrange(0, cut as int));
    assert(s@.skip(cut as int) =~= s@.subrange(cut as int, s@.len() as int));
    r
}

/// The runs of one side before they are listed by id: the chosen part of
/// the positive group, then that of the others.
proof fn lemma_side_parts(
    runs: Seq<RunLabel>,
    sp: Seq<usize>,
    cp: int,
    sn: Seq<usize>,
    cn: int,
    pos_share: int,
    neg_share: int,
    training: bool,
    l: Seq<usize>,
)
    requires
        runs.len() <= usize::MAX,
        0 <= cp <= sp.len(),
        0 <= cn <= sn.len(),
        l == (if training {
            sp.take(cp)
        } else {
            sp.skip(cp)
        }) + (if training {
            sn.take(cn)
        } else {
            sn.skip(cn)
        }),
        forall|k: int| 0 <= k < sp.len() ==> #[trigger] sp[k] < runs.len() && positive(runs[sp[k] as int]),
        forall|k: int| 0 <= k < sn.len() ==> #[trigger] sn[k] < runs.len() && !positive(runs[sn[k] as int]),
        forall|q: int| 0 <= q < runs.len() && positive(runs[q]) ==> sp.contains(q as usize),
        forall|q: int| 0 <= q < runs.len() && !positive(runs[q]) ==> sn.contains(q as usize),
        forall|i: int, j: int| 0 <= i < j < sp.len() ==> id_before(runs, sp[i] as int, sp[j] as int),
        forall|i: int, j: int| 0 <= i < j < sn.len() ==> id_before(runs, sn[i] as int, sn[j] as int),
        forall|t: int| 0 <= t < sp.len() ==> #[trigger] in_training(runs, sp[t] as int, pos_share, neg_share) == (t < cp),
        forall|t: int| 0 <= t < sn.len() ==> #[trigger] in_training(runs, sn[t] as int, pos_share, neg_share) == (t < cn),
    ensures
        forall|k: int| 0 <= k < l.len() ==> #[trigger] l[k] < runs.len() && in_training(runs, l[k] as int, pos_share, neg_share) == training,
        forall|p: int| 0 <= p < runs.len() && in_training(runs, p, pos_share, neg_share) == training ==> l.contains(p as usize),
        forall|a: int, b: int|
            0 <= a < b < l.len() && runs[l[a] as int].run_id@ == runs[l[b] as int].run_id@ ==> side_before(runs, l[a] as int, l[b] as int),
{
    let a_part = if training { sp.take(cp) } else { sp.skip(cp) };
    let off = if training { 0 } else { cp };
    let b_part = if training { sn.take(cn) } else { sn.skip(cn) };
    let offn = if training { 0 } else { cn };
    assert forall|k: int| 0 <= k < a_part.len() implies a_part[k] == sp[k + off] && (k + off < cp) == training by {}
    assert forall|k: int| 0 <= k < b_part.len() implies b_part[k] == sn[k + offn] && (k + offn < cn) == training by {}
    assert forall|k: int| 0 <= k < l.len() implies #[trigger] l[k] < runs.len() && in_training(runs, l[k] as int, pos_share, neg_share) == training by {
        if k < a_part.len() {
            assert(l[k] == sp[k + off]);
        } else {
            assert(l[k] == sn[k - a_part.len() + offn]);
        }
    }
    assert forall|p: int| 0 <= p < runs.len() && in_training(runs, p, pos_share, neg_share) == training implies l.contains(p as usize) by {
        if positive(runs[p]) {
            let u = choose|u: int| 0 <= u < sp.len() && sp[u] == p as usize;
            assert(in_training(runs, sp[u] as int, pos_share, neg_share) == (u < cp));
            assert(a_part[u - off] == sp[u]);
            assert(l[u - off] == a_part[u - off]);
        } else {
            let u = choose|u: int| 0 <= u < sn.len() && sn[u] == p as usize;
            assert(in_training(runs, sn[u] as int, pos_share, neg_share) == (u < cn));
            assert(b_part[u - offn] == sn[u]);
            assert(l[a_part.len() + u - offn] == b_part[u - offn]);
        }
    }
    assert forall|a: int, b: int|
        0 <= a < b < l.len() && runs[l[a] as int].run_id@ == runs[l[b] as int].run_id@ implies side_before(runs, l[a] as int, l[b] as int) by {
        let x = l[a] as int;
        lemma_text_lt_order(runs[x].run_id@, runs[x].run_id@, runs[x].run_id@);
        if b < a_part.len() {
            assert(l[a] == sp[a + off] && l[b] == sp[b + off]);
            assert(id_before(runs, sp[a + off] as int, sp[b + off] as int));
        } else if a >= a_part.len() {
            let (u, v) = (a - a_part.len() + offn, b - a_part.len() + offn);
            assert(l[a] == sn[u] && l[b] == sn[v]);
            assert(id_before(runs, sn[u] as int, sn[v] as int));
        } else {
            assert(l[a] == sp[a + off]);
            assert(l[b] == sn[b - a_part.len() + offn]);
        }
    }
}

/// One side: the runs of the sorted groups before their cuts (training)
/// or from them on (validation), listed by id.
fn side(
    runs: &Vec<RunLabel>,
    ids: &Vec<Vec<char>>,
    sp: &Vec<usize>,
    tp: usize,
    sn: &Vec<usize>,
    tn: usize,
    Ghost(pos_share): Ghost<int>,
    Ghost(neg_share): Ghost<int>,
    training: bool,
) -> (r: Vec<usize>)
    requires
        ids@.len() == runs@.len(),
        forall|k: int| 0 <= k < ids@.len() ==> (#[trigger] ids@[k])@ == runs@[k].run_id@,
        forall|k: int| 0 <= k < sp@.len() ==> #[trigger] sp@[k] < runs@.len() && positive(runs@[sp@[k] as int]),
        forall|k: int| 0 <= k < sn@.len() ==> #[trigger] sn@[k] < runs@.len() && !positive(runs@[sn@[k] as int]),
        forall|q: int| 0 <= q < runs@.len() && positive(runs@[q]) ==> sp@.contains(q as usize),
        forall|q: int| 0 <= q < runs@.len() && !positive(runs@[q]) ==> sn@.contains(q as usize),
        forall|i: int, j: int| 0 <= i < j < sp@.len() ==> id_before(runs@, sp@[i] as int, sp@[j] as int),
        forall|i: int, j: int| 0 <= i < j < sn@.len() ==> id_before(runs@, sn@[i] as int, sn@[j] as int),
        forall|t: int| 0 <= t < sp@.len() ==> #[trigger] in_training(runs@, sp@[t] as int, pos_share, neg_share) == (t < tp),
        forall|t: int| 0 <= t < sn@.len() ==> #[trigger] in_training(runs@, sn@[t] as int, pos_share, neg_share) == (t < tn),
    ensures
        is_side(r@, runs@, pos_share, neg_share, training),
        r@.len() == (if training {
            cut(tp as int, sp@.len() as int) + cut(tn as int, sn@.len() as int)
        } else {
            sp@.len() - cut(tp as int, sp@.len() as int) + sn@.len() - cut(tn as int, sn@.len() as int)
        }),
{
    let cp = if tp > sp.len() { sp.len() } else { tp };
    let cn = if tn > sn.len() { sn.len() } else { tn };
    let mut l = part(sp, cp, training);
    let b = part(sn, cn, training);
    let ghost la = l@;
    let mut t: usize = 0;
    while t < b.len()
        invariant
            t <= b@.len(),
            l@ == la + b@.take(t as int),
        decreases b@.len() - t,
    {
        l.push(b[t]);
        t = t + 1;
        assert(l@ =~= la + b@.take(t as int));
    }
    let nn = runs.len();
    proof {
        assert(b@.take(b@.len() as int) =~= b@);
        lemma_side_parts(runs@, sp@, cp as int, sn@, cn as int, pos_share, neg_share, training, l@);
    }
    let ghost member = |p: int| in_training(runs@, p, pos_share, neg_share) == training;
    let r = order_by_id(runs, ids, &l, Ghost(member));
    proof {
        assert forall|p: int| 0 <= p < runs@.len() && in_training(runs@, p, pos_share, neg_share) == training implies r@.contains(p as usize) by {
            assert(member(p));
        }
        assert forall|k: int| 0 <= k < r@.len() implies #[trigger] r@[k] < runs@.len() && in_training(runs@, r@[k] as int, pos_share, neg_share) == training by {
            assert(member(r@[k] as int));
        }
    }
    r
}

/// The runs of a side listed by id: a stable sort by id of a list of runs
/// in which runs of the same id already stand in the side's order.
fn order_by_id(
    runs: &Vec<RunLabel>,
    ids: &Vec<Vec<char>>,
    l: &Vec<usize>,
    Ghost(member): Ghost<spec_fn(int) -> bool>,
) -> (r: Vec<usize>)
    requires
        ids@.len() == runs@.len(),
        forall|k: int| 0 <= k < ids@.len() ==> (#[trigger] ids@[k])@ == runs@[k].run_id@,
        forall|k: int| 0 <= k < l@.len() ==> #[trigger] l@[k] < runs@.len() && member(l@[k] as int),
        forall|p: int| 0 <= p < runs@.len() && #[trigger] member(p) ==> l@.contains(p as usize),
        forall|a: int, b: int|
            0 <= a < b < l@.len() && runs@[l@[a] as int].run_id@ == runs@[l@[b] as int].run_id@ ==> side_before(runs@, l@[a] as int, l@[b] as int),
    ensures
        r@.len() == l@.len(),
        forall|k: int| 0 <= k < r@.len() ==> #[trigger] r@[k] < runs@.len() && member(r@[k] as int),
        forall|p: int| 0 <= p < runs@.len() && #[trigger] member(p) ==> r@.contains(p as usize),
        forall|i: int, j: int| 0 <= i < j < r@.len() ==> side_before(runs@, r@[i] as int, r@[j] as int),
{
    let m = l.len();
    let ghost within = |a: int, b: int| text_lt(runs@[l@[a] as int].run_id@, runs@[l@[b] as int].run_id@);
    proof {
        assert forall|a: int| 0 <= a < m implies !#[trigger] within(a, a) by {
            lemma_text_lt_order(runs@[l@[a] as int].run_id@, runs@[l@[a] as int].run_id@, runs@[l@[a] as int].run_id@);
        }
        assert forall|a: int, b: int| 0 <= a < m && 0 <= b < m && #[trigger] within(a, b) implies !within(
            b,
            a,
        ) by {
            lemma_text_lt_order(runs@[l@[a] as int].run_id@, runs@[l@[b] as int].run_id@, runs@[l@[a] as int].run_id@);
        }
        assert forall|a: int, b: int, c: int|
            0 <= a < m && 0 <= b < m && 0 <= c < m && #[trigger] within(a, b) && !within(c, b) implies #[trigger] within(
            a,
            c,
        ) by {
            let (x, y, z) = (runs@[l@[a] as int].run_id@, runs@[l@[b] as int].run_id@, runs@[l@[c] as int].run_id@);
            lemma_text_lt_order(x, y, z);
            lemma_text_lt_order(y, z, x);
            lemma_text_lt_order(z, y, x);
        }
    }
    let lt = |a: usize, b: usize| -> (x: bool)
        requires
            a < m,
            b < m,
            m == l@.len(),
            ids@.len() == runs@.len(),
            forall|k: int| 0 <= k < ids@.len() ==> (#[trigger] ids@[k])@ == runs@[k].run_id@,
            forall|k: int| 0 <= k < l@.len() ==> #[trigger] l@[k] < runs@.len(),
        ensures
            x == text_lt(runs@[l@[a as int] as int].run_id@, runs@[l@[b as int] as int].run_id@),
        { text_less(&ids[l[a]], &ids[l[b]]) };
    let o = stable_order(m, lt, Ghost(within));
    let mut r: Vec<usize> = Vec::new();
    let mut t: usize = 0;
    while t < m
        invariant
            m == l@.len(),
            t <= m,
            is_stable_order(o@, within, m as int),
            r@.len() == t,
            forall|k: int| 0 <= k < t ==> r@[k] == l@[o@[k] as int],
        decreases m - t,
    {
        r.push(l[o[t]]);
        t = t + 1;
    }
    proof {
        assert forall|k: int| 0 <= k < r@.len() implies #[trigger] r@[k] < runs@.len() && member(r@[k] as int) by {
            assert(r@[k] == l@[o@[k] as int]);
        }
        assert forall|p: int| 0 <= p < runs@.len() && #[trigger] member(p) implies r@.contains(p as usize) by {
            let w = choose|w: int| 0 <= w < l@.len() && l@[w] == p as usize;
            assert(o@.contains(w as usize));
            let v = choose|v: int| 0 <= v < o@.len() && o@[v] == w as usize;
            assert(r@[v] == p as usize);
        }
        assert forall|i: int, j: int| 0 <= i < j < r@.len() implies side_before(runs@, r@[i] as int, r@[j] as int) by {
            let (x, y) = (o@[i] as int, o@[j] as int);
            assert(stably_before(within, x, y));
            let (ix, iy) = (runs@[l@[x] as int].run_id@, runs@[l@[y] as int].run_id@);
            lemma_text_lt_order(ix, iy, ix);
            if !text_lt(ix, iy) {
                assert(x < y);
            }
        }
    }
    r
}



// ---------------------------------------------------------------------------
// Splitting by scenario
// ---------------------------------------------------------------------------

/// The scenarios of the runs of one label group.
pub open spec fn group_scenarios(runs: Seq<RunLabel>, scen: Seq<String>, pos: bool) -> Set<Seq<char>> {
    Set::new(
        |s: Seq<char>|
            exists|q: int| 0 <= q < runs.len() && positive(runs[q]) == pos && #[trigger] scen[q]@ == s,
    )
}

/// The number of scenarios of a group that come before a scenario.
pub open spec fn scenario_rank(runs: Seq<RunLabel>, scen: Seq<String>, pos: bool, s: Seq<char>) -> nat {
    group_scenarios(runs, scen, pos).filter(|m: Seq<char>| text_lt(m, s)).len()
}

/// Whether a run trains when groups are split by scenario: a group with
/// fewer than two scenarios trains whole; otherwise the runs of the first
/// share of its scenarios, in name order, train.
pub open spec fn trains_by_scenario(runs: Seq<RunLabel>, scen: Seq<String>, p: int, pos_share: int, neg_share: int) -> bool {
    let pos = positive(runs[p]);
    let ns = group_scenarios(runs, scen, pos).len() as int;
    ns < 2 || scenario_rank(runs, scen, pos, scen[p]@) < train_share(
        ns,
        if pos {
            pos_share
        } else {
            neg_share
        },
    )
}

/// `r` lists the runs of one side of a split by scenario, each once, in the side's order.
pub open spec fn is_scenario_side(
    r: Seq<usize>,
    runs: Seq<RunLabel>,
    scen: Seq<String>,
    pos_share: int,
    neg_share: int,
    training: bool,
) -> bool {
    &&& forall|k: int|
        0 <= k < r.len() ==> #[trigger] r[k] < runs.len() && trains_by_scenario(runs, scen, r[k] as int, pos_share, neg_share)
            == training
    &&& forall|p: int|
        0 <= p < runs.len() && trains_by_scenario(runs, scen, p, pos_share, neg_share) == training ==> r.contains(
            p as usize,
        )
    &&& forall|i: int, j: int| 0 <= i < j < r.len() ==> side_before(runs, r[i] as int, r[j] as int)
}

/// The texts of a list of names.
pub open spec fn name_texts(v: Seq<Vec<char>>) -> Seq<Seq<char>> {
    v.map_values(|x: Vec<char>| x@)
}

/// A list of distinct names holds as many names as the set it lists.
proof fn lemma_names_count_set(s: Seq<Seq<char>>, set: Set<Seq<char>>)
    requires
        s.no_duplicates(),
        s.to_set() == set,
    ensures
        s.len() == set.len(),
        set.finite(),
{
    s.unique_seq_to_set();
}

/// In a list of a group's scenarios in name order, a scenario's rank is its place.
proof fn lemma_scenario_rank(runs: Seq<RunLabel>, scen: Seq<String>, pos: bool, d: Seq<Seq<char>>, t: int)
    requires
        0 <= t < d.len(),
        d.to_set() == group_scenarios(runs, scen, pos),
        forall|i: int, j: int| 0 <= i < j < d.len() ==> text_lt(d[i], d[j]),
    ensures
        scenario_rank(runs, scen, pos, d[t]) == t,
{
    let set = group_scenarios(runs, scen, pos).filter(|m: Seq<char>| text_lt(m, d[t]));
    let pre = d.take(t);
    assert(pre.no_duplicates()) by {
        assert forall|a: int, b: int| 0 <= a < pre.len() && 0 <= b < pre.len() && a != b implies pre[a] != pre[b] by {
            if a < b {
                lemma_text_lt_order(d[a], d[b], d[a]);
            } else {
                lemma_text_lt_order(d[b], d[a], d[b]);
            }
        }
    }
    assert(pre.to_set() =~= set) by {
        assert forall|x: Seq<char>| #[trigger] set.contains(x) implies pre.to_set().contains(x) by {
            assert(d.to_set().contains(x));
            let k = choose|k: int| 0 <= k < d.len() && d[k] == x;
            if k >= t {
                lemma_text_lt_order(d[t], x, d[t]);
                if k > t {
                    assert(text_lt(d[t], d[k]));
                }
                assert(false);
            }
            assert(pre[k] == x);
        }
        assert forall|x: Seq<char>| #[trigger] pre.to_set().contains(x) implies set.contains(x) by {
            let k = choose|k: int| 0 <= k < pre.len() && pre[k] == x;
            assert(d[k] == x);
            assert(d.to_set().contains(x));
        }
    }
    lemma_names_count_set(pre, set);
}

/// Whether two names are the same.
fn same_name(a: &Vec<char>, b: &Vec<char>) -> (r: bool)
    ensures
        r == (a@ == b@),
{
    proof {
        lemma_text_lt_order(a@, b@, a@);
    }
    !text_less(a, b) && !text_less(b, a)
}

/// The scenarios of a group, each once, in name order.
fn group_scenario_list(runs: &Vec<RunLabel>, scen: &Vec<String>, g: &Vec<usize>, Ghost(pos): Ghost<bool>) -> (d: Vec<Vec<char>>)
    requires
        scen@.len() == runs@.len(),
        forall|k: int| 0 <= k < g@.len() ==> #[trigger] g@[k] < runs@.len() && positive(runs@[g@[k] as int]) == pos,
        forall|q: int| 0 <= q < runs@.len() && positive(runs@[q]) == pos ==> g@.contains(q as usize),
    ensures
        name_texts(d@).to_set() == group_scenarios(runs@, scen@, pos),
        forall|i: int, j: int| 0 <= i < j < d@.len() ==> text_lt(d@[i]@, d@[j]@),
        d@.len() == group_scenarios(runs@, scen@, pos).len(),
{
    let nn = runs.len();
    let mut names: Vec<Vec<char>> = Vec::new();
    let mut t: usize = 0;
    while t < g.len()
        invariant
            scen@.len() == runs@.len(),
            forall|k: int| 0 <= k < g@.len() ==> #[trigger] g@[k] < runs@.len() && positive(runs@[g@[k] as int]) == pos,
            t <= g@.len(),
            name_texts(names@).no_duplicates(),
            forall|x: Seq<char>| #[trigger] name_texts(names@).contains(x) <==> exists|u: int| 0 <= u < t && scen@[g@[u] as int]@ == x,
        decreases g@.len() - t,
    {
        let name = chars_of(scen[g[t]].as_str());
        let mut j: usize = 0;
        let mut seen = false;
        while j < names.len() && !seen
            invariant
                j <= names@.len(),
                seen ==> j < names@.len() && names@[j as int]@ == name@,
                forall|w: int| 0 <= w < j ==> names@[w]@ != name@,
            decreases names@.len() - j, if seen { 0int } else { 1int },
        {
            if same_name(&names[j], &name) {
                seen = true;
            } else {
                j = j + 1;
            }
        }
        let ghost before = name_texts(names@);
        if !seen {
            names.push(name);
            proof {
                let now = name_texts(names@);
                assert(now =~= before.push(scen@[g@[t as int] as int]@));
                assert(!before.contains(scen@[g@[t as int] as int]@)) by {
                    if before.contains(scen@[g@[t as int] as int]@) {
                        let w = choose|w: int| 0 <= w < before.len() && before[w] == scen@[g@[t as int] as int]@;
                        assert(names@[w]@ == before[w]);
                    }
                }
                assert forall|x: Seq<char>| #[trigger] now.contains(x) <==> exists|u: int| 0 <= u < t + 1 && scen@[g@[u] as int]@ == x by {
                    if now.contains(x) {
                        let w = choose|w: int| 0 <= w < now.len() && now[w] == x;
                        if w == now.len() - 1 {
                            assert(scen@[g@[t as int] as int]@ == x);
                        } else {
                            assert(before[w] == x);
                            assert(before.contains(x));
                        }
                    }
                    if exists|u: int| 0 <= u < t + 1 && scen@[g@[u] as int]@ == x {
                        let u = choose|u: int| 0 <= u < t + 1 && scen@[g@[u] as int]@ == x;
                        if u == t {
                            assert(now[now.len() - 1] == x);
                        } else {
                            assert(before.contains(x));
                            let w = choose|w: int| 0 <= w < before.len() && before[w] == x;
                            assert(now[w] == x);
                        }
                    }
                }
            }
        } else {
            proof {
                assert(before[j as int] == scen@[g@[t as int] as int]@);
                assert forall|x: Seq<char>| #[trigger] before.contains(x) <==> exists|u: int| 0 <= u < t + 1 && scen@[g@[u] as int]@ == x by {
                    if exists|u: int| 0 <= u < t + 1 && scen@[g@[u] as int]@ == x {
                        let u = choose|u: int| 0 <= u < t + 1 && scen@[g@[u] as int]@ == x;
                        if u == t {
                            assert(before[j as int] == x);
                        }
                    }
                }
            }
        }
        t = t + 1;
    }
    let ghost nv = name_texts(names@);
    proof {
        assert(nv.to_set() =~= group_scenarios(runs@, scen@, pos)) by {
            assert forall|x: Seq<char>| #[trigger] group_scenarios(runs@, scen@, pos).contains(x) implies nv.to_set().contains(x) by {
                let q = choose|q: int| 0 <= q < runs@.len() && positive(runs@[q]) == pos && #[trigger] scen@[q]@ == x;
                assert(g@.contains(q as usize));
                let u = choose|u: int| 0 <= u < g@.len() && g@[u] == q as usize;
                assert(g@[u] as int == q);
                assert(scen@[g@[u] as int]@ == x);
                assert(nv.contains(x));
            }
            assert forall|x: Seq<char>| #[trigger] nv.to_set().contains(x) implies group_scenarios(runs@, scen@, pos).contains(x) by {
                assert(nv.contains(x));
                let u = choose|u: int| 0 <= u < g@.len() && scen@[g@[u] as int]@ == x;
                let q = g@[u] as int;
                assert(0 <= q < runs@.len() && positive(runs@[q]) == pos && scen@[q]@ == x);
            }
        }
    }
    // the names in order
    let m = names.len();
    let ghost within = |a: int, b: int| text_lt(names@[a]@, names@[b]@);
    proof {
        assert forall|a: int| 0 <= a < m implies !#[trigger] within(a, a) by {
            lemma_text_lt_order(names@[a]@, names@[a]@, names@[a]@);
        }
        assert forall|a: int, b: int| 0 <= a < m && 0 <= b < m && #[trigger] within(a, b) implies !within(
            b,
            a,
        ) by {
            lemma_text_lt_order(names@[a]@, names@[b]@, names@[a]@);
        }
        assert forall|a: int, b: int, c: int|
            0 <= a < m && 0 <= b < m && 0 <= c < m && #[trigger] within(a, b) && !within(c, b) implies #[trigger] within(
            a,
            c,
        ) by {
            lemma_text_lt_order(names@[a]@, names@[b]@, names@[c]@);
            lemma_text_lt_order(names@[c]@, names@[b]@, names@[a]@);
        }
    }
    let lt = |a: usize, b: usize| -> (x: bool)
        requires
            a < m,
            b < m,
            m == names@.len(),
        ensures
            x == text_lt(names@[a as int]@, names@[b as int]@),
        { text_less(&names[a], &names[b]) };
    let o = stable_order(m, lt, Ghost(within));
    let mut d: Vec<Vec<char>> = Vec::new();
    let mut t: usize = 0;
    while t < m
        invariant
            m == names@.len(),
            t <= m,
            is_stable_order(o@, within, m as int),
            d@.len() == t,
            forall|k: int| 0 <= k < t ==> (#[trigger] d@[k])@ == names@[o@[k] as int]@,
        decreases m - t,
    {
        let mut copy: Vec<char> = Vec::new();
        let src = &names[o[t]];
        let mut c: usize = 0;
        while c < src.len()
            invariant
                c <= src@.len(),
                copy@ == src@.take(c as int),
            decreases src@.len() - c,
        {
            copy.push(src[c]);
            c = c + 1;
            assert(copy@ =~= src@.take(c as int));
        }
        assert(src@.take(src@.len() as int) =~= src@);
        d.push(copy);
        t = t + 1;
    }
    proof {
        let dv = name_texts(d@);
        assert forall|i: int, j: int| 0 <= i < j < d@.len() implies text_lt(d@[i]@, d@[j]@) by {
            let (x, y) = (o@[i] as int, o@[j] as int);
            assert(stably_before(within, x, y));
            if !text_lt(names@[x]@, names@[y]@) {
                // equal names stand once in the list
                lemma_text_lt_order(names@[x]@, names@[y]@, names@[x]@);
                assert(nv[x] == names@[x]@ && nv[y] == names@[y]@);
                assert(x != y);
                assert(false);
            }
        }
        assert(dv.to_set() =~= nv.to_set()) by {
            assert forall|x: Seq<char>| #[trigger] dv.to_set().contains(x) implies nv.to_set().contains(x) by {
                let k = choose|k: int| 0 <= k < dv.len() && dv[k] == x;
                assert(nv[o@[k] as int] == x);
            }
            assert forall|x: Seq<char>| #[trigger] nv.to_set().contains(x) implies dv.to_set().contains(x) by {
                let w = choose|w: int| 0 <= w < nv.len() && nv[w] == x;
                assert(o@.contains(w as usize));
                let v = choose|v: int| 0 <= v < o@.len() && o@[v] == w as usize;
                assert(dv[v] == x);
            }
        }
        assert(dv.no_duplicates()) by {
            assert forall|a: int, b: int| 0 <= a < dv.len() && 0 <= b < dv.len() && a != b implies dv[a] != dv[b] by {
                if a < b {
                    lemma_text_lt_order(d@[a]@, d@[b]@, d@[a]@);
                } else {
                    lemma_text_lt_order(d@[b]@, d@[a]@, d@[b]@);
                }
            }
        }
        lemma_names_count_set(dv, group_scenarios(runs@, scen@, pos));
    }
    d
}

/// The number of scenarios of the positive runs and of the others.
pub fn scenario_group_sizes(runs: &Vec<RunLabel>, scenarios: &Vec<String>) -> (r: (usize, usize))
    requires
        scenarios@.len() == runs@.len(),
    ensures
        r.0 == group_scenarios(runs@, scenarios@, true).len(),
        r.1 == group_scenarios(runs@, scenarios@, false).len(),
{
    let gp = group_positions(runs, true);
    let gn = group_positions(runs, false);
    let dp = group_scenario_list(runs, scenarios, &gp, Ghost(true));
    let dn = group_scenario_list(runs, scenarios, &gn, Ghost(false));
    (dp.len(), dn.len())
}

/// The runs of one group that go to one side of a split by scenario, in
/// the group's position order.
fn scenario_part(
    runs: &Vec<RunLabel>,
    scen: &Vec<String>,
    g: &Vec<usize>,
    d: &Vec<Vec<char>>,
    share: usize,
    Ghost(pos): Ghost<bool>,
    Ghost(pos_share): Ghost<int>,
    Ghost(neg_share): Ghost<int>,
    training: bool,
) -> (r: Vec<usize>)
    requires
        scen@.len() == runs@.len(),
        forall|k: int| 0 <= k < g@.len() ==> #[trigger] g@[k] < runs@.len() && positive(runs@[g@[k] as int]) == pos,
        forall|q: int| 0 <= q < runs@.len() && positive(runs@[q]) == pos ==> g@.contains(q as usize),
        forall|a: int, b: int| 0 <= a < b < g@.len() ==> g@[a] < g@[b],
        name_texts(d@).to_set() == group_scenarios(runs@, scen@, pos),
        forall|i: int, j: int| 0 <= i < j < d@.len() ==> text_lt(d@[i]@, d@[j]@),
        d@.len() == group_scenarios(runs@, scen@, pos).len(),
        share as int == (if pos {
            pos_share
        } else {
            neg_share
        }),
    ensures
        forall|k: int| 0 <= k < r@.len() ==> #[trigger] r@[k] < runs@.len() && positive(runs@[r@[k] as int]) == pos
            && trains_by_scenario(runs@, scen@, r@[k] as int, pos_share, neg_share) == training,
        forall|q: int|
            0 <= q < runs@.len() && positive(runs@[q]) == pos && trains_by_scenario(runs@, scen@, q, pos_share, neg_share)
                == training ==> r@.contains(q as usize),
        forall|a: int, b: int| 0 <= a < b < r@.len() ==> r@[a] < r@[b],
{
    let nn = runs.len();
    let ghost dv = name_texts(d@);
    let tc = share_of(d.len(), share);
    let mut r: Vec<usize> = Vec::new();
    let mut t: usize = 0;
    while t < g.len()
        invariant
            scen@.len() == runs@.len(),
            forall|k: int| 0 <= k < g@.len() ==> #[trigger] g@[k] < runs@.len() && positive(runs@[g@[k] as int]) == pos,
            forall|a: int, b: int| 0 <= a < b < g@.len() ==> g@[a] < g@[b],
            dv == name_texts(d@),
            dv.to_set() == group_scenarios(runs@, scen@, pos),
            forall|i: int, j: int| 0 <= i < j < d@.len() ==> text_lt(d@[i]@, d@[j]@),
            d@.len() == group_scenarios(runs@, scen@, pos).len(),
            tc == train_share(d@.len() as int, share as int),
            share as int == (if pos { pos_share } else { neg_share }),
            t <= g@.len(),
            forall|k: int| 0 <= k < r@.len() ==> #[trigger] r@[k] < runs@.len() && positive(runs@[r@[k] as int]) == pos
                && trains_by_scenario(runs@, scen@, r@[k] as int, pos_share, neg_share) == training,
            forall|u: int|
                0 <= u < t && trains_by_scenario(runs@, scen@, g@[u] as int, pos_share, neg_share) == training ==> r@.contains(#[trigger] g@[u]),
            forall|k: int| 0 <= k < r@.len() ==> exists|u: int| 0 <= u < t && g@[u] == #[trigger] r@[k],
            forall|a: int, b: int| 0 <= a < b < r@.len() ==> r@[a] < r@[b],
            r@.len() > 0 ==> t > 0 && r@[r@.len() - 1] <= g@[t - 1],
        decreases g@.len() - t,
    {
        let p = g[t];
        let name = chars_of(scen[p].as_str());
        // the place of the run's scenario among the group's
        let mut k: usize = 0;
        let mut found = false;
        proof {
            assert(group_scenarios(runs@, scen@, pos).contains(scen@[p as int]@)) by {
                assert(0 <= p < runs@.len() && positive(runs@[p as int]) == pos && scen@[p as int]@ == scen@[p as int]@);
            }
            assert(dv.to_set().contains(scen@[p as int]@));
        }
        while k < d.len() && !found
            invariant
                k <= d@.len(),
                dv == name_texts(d@),
                dv.contains(name@),
                found ==> k < d@.len() && d@[k as int]@ == name@,
                forall|w: int| 0 <= w < k ==> d@[w]@ != name@,
            decreases d@.len() - k, if found { 0int } else { 1int },
        {
            if same_name(&d[k], &name) {
                found = true;
            } else {
                k = k + 1;
            }
        }
        proof {
            if !found {
                let w = choose|w: int| 0 <= w < dv.len() && dv[w] == name@;
                assert(d@[w]@ == name@);
                assert(false);
            }
            assert(dv[k as int] == name@);
            lemma_scenario_rank(runs@, scen@, pos, dv, k as int);
            assert(forall|i: int, j: int| 0 <= i < j < dv.len() ==> text_lt(dv[i], dv[j])) by {
                assert forall|i: int, j: int| 0 <= i < j < dv.len() implies text_lt(dv[i], dv[j]) by {
                    assert(dv[i] == d@[i]@ && dv[j] == d@[j]@);
                }
            }
            assert(trains_by_scenario(runs@, scen@, p as int, pos_share, neg_share) == (d@.len() < 2 || k < tc));
        }
        let trains = d.len() < 2 || k < tc;
        if trains == training {
            let ghost before = r@;
            r.push(p);
            proof {
                assert forall|u: int|
                    0 <= u < t + 1 && trains_by_scenario(runs@, scen@, g@[u] as int, pos_share, neg_share) == training implies r@.contains(#[trigger] g@[u]) by {
                    if u == t {
                        assert(r@[r@.len() - 1] == g@[u]);
                    } else {
                        let w = choose|w: int| 0 <= w < before.len() && before[w] == g@[u];
                        assert(r@[w] == g@[u]);
                    }
                }
                assert forall|kk: int| 0 <= kk < r@.len() implies exists|u: int| 0 <= u < t + 1 && g@[u] == #[trigger] r@[kk] by {
                    if kk == r@.len() - 1 {
                        assert(g@[t as int] == r@[kk]);
                    } else {
                        assert(r@[kk] == before[kk]);
                    }
                }
                if before.len() > 0 {
                    assert(g@[t - 1] < g@[t as int]);
                }
            }
        }
        t = t + 1;
    }
    proof {
        assert forall|q: int|
            0 <= q < runs@.len() && positive(runs@[q]) == pos && trains_by_scenario(runs@, scen@, q, pos_share, neg_share)
                == training implies r@.contains(q as usize) by {
            let u = choose|u: int| 0 <= u < g@.len() && g@[u] == q as usize;
            assert(g@[u] as int == q);
            assert(r@.contains(g@[u]));
        }
    }
    r
}

/// The training and the validation runs of a split by scenario, as
/// positions of the runs (`scenarios` holds each run's scenario): positive
/// runs and the others are split separately, a group with fewer than two
/// scenarios training whole and otherwise the runs of the first
/// `train_share` of its scenarios, in name order, training; then each side
/// lists its runs by id, a positive run before a negative one of the same id.
pub fn split_runs_by_scenario(
    runs: &Vec<RunLabel>,
    scenarios: &Vec<String>,
    pos_share: usize,
    neg_share: usize,
) -> (r: (Vec<usize>, Vec<usize>))
    requires
        scenarios@.len() == runs@.len(),
    ensures
        is_scenario_side(r.0@, runs@, scenarios@, pos_share as int, neg_share as int, true),
        is_scenario_side(r.1@, runs@, scenarios@, pos_share as int, neg_share as int, false),
{
    let n = runs.len();
    let mut ids: Vec<Vec<char>> = Vec::new();
    let mut i: usize = 0;
    while i < n
        invariant
            n == runs@.len(),
            i <= n,
            ids@.len() == i,
            forall|k: int| 0 <= k < i ==> (#[trigger] ids@[k])@ == runs@[k].run_id@,
        decreases n - i,
    {
        ids.push(chars_of(runs[i].run_id.as_str()));
        i = i + 1;
    }
    let gp = group_positions(runs, true);
    let gn = group_positions(runs, false);
    let dp = group_scenario_list(runs, scenarios, &gp, Ghost(true));
    let dn = group_scenario_list(runs, scenarios, &gn, Ghost(false));
    let train = scenario_side(runs, scenarios, &ids, &gp, &dp, &gn, &dn, pos_share, neg_share, true);
    let valid = scenario_side(runs, scenarios, &ids, &gp, &dp, &gn, &dn, pos_share, neg_share, false);
    (train, valid)
}

fn scenario_side(
    runs: &Vec<RunLabel>,
    scen: &Vec<String>,
    ids: &Vec<Vec<char>>,
    gp: &Vec<usize>,
    dp: &Vec<Vec<char>>,
    gn: &Vec<usize>,
    dn: &Vec<Vec<char>>,
    pos_share: usize,
    neg_share: usize,
    training: bool,
) -> (r: Vec<usize>)
    requires
        scen@.len() == runs@.len(),
        ids@.len() == runs@.len(),
        forall|k: int| 0 <= k < ids@.len() ==> (#[trigger] ids@[k])@ == runs@[k].run_id@,
        forall|k: int| 0 <= k < gp@.len() ==> #[trigger] gp@[k] < runs@.len() && positive(runs@[gp@[k] as int]) == true,
        forall|q: int| 0 <= q < runs@.len() && positive(runs@[q]) == true ==> gp@.contains(q as usize),
        forall|a: int, b: int| 0 <= a < b < gp@.len() ==> gp@[a] < gp@[b],
        name_texts(dp@).to_set() == group_scenarios(runs@, scen@, true),
        forall|i: int, j: int| 0 <= i < j < dp@.len() ==> text_lt(dp@[i]@, dp@[j]@),
        dp@.len() == group_scenarios(runs@, scen@, true).len(),
        forall|k: int| 0 <= k < gn@.len() ==> #[trigger] gn@[k] < runs@.len() && positive(runs@[gn@[k] as int]) == false,
        forall|q: int| 0 <= q < runs@.len() && positive(runs@[q]) == false ==> gn@.contains(q as usize),
        forall|a: int, b: int| 0 <= a < b < gn@.len() ==> gn@[a] < gn@[b],
        name_texts(dn@).to_set() == group_scenarios(runs@, scen@, false),
        forall|i: int, j: int| 0 <= i < j < dn@.len() ==> text_lt(dn@[i]@, dn@[j]@),
        dn@.len() == group_scenarios(runs@, scen@, false).len(),
    ensures
        is_scenario_side(r@, runs@, scen@, pos_share as int, neg_share as int, training),
{
    let ghost (ps, ns) = (pos_share as int, neg_share as int);
    let a = scenario_part(runs, scen, gp, dp, pos_share, Ghost(true), Ghost(ps), Ghost(ns), training);
    let b = scenario_part(runs, scen, gn, dn, neg_share, Ghost(false), Ghost(ps), Ghost(ns), training);
    let mut l = a;
    let ghost la = l@;
    let mut t: usize = 0;
    while t < b.len()
        invariant
            t <= b@.len(),
            l@ == la + b@.take(t as int),
        decreases b@.len() - t,
    {
        l.push(b[t]);
        t = t + 1;
        assert(l@ =~= la + b@.take(t as int));
    }
    let ghost member = |p: int| trains_by_scenario(runs@, scen@, p, ps, ns) == training;
    proof {
        assert(b@.take(b@.len() as int) =~= b@);
        assert(l@ =~= la + b@);
        assert forall|k: int| 0 <= k < l@.len() implies #[trigger] l@[k] < runs@.len() && member(l@[k] as int) by {
            if k >= la.len() {
                assert(l@[k] == b@[k - la.len()]);
            }
        }
        assert forall|p: int| 0 <= p < runs@.len() && #[trigger] member(p) implies l@.contains(p as usize) by {
            if positive(runs@[p]) {
                assert(la.contains(p as usize));
                let w = choose|w: int| 0 <= w < la.len() && la[w] == p as usize;
                assert(l@[w] == p as usize);
            } else {
                assert(b@.contains(p as usize));
                let w = choose|w: int| 0 <= w < b@.len() && b@[w] == p as usize;
                assert(l@[la.len() + w] == p as usize);
            }
        }
        assert forall|x: int, y: int|
            0 <= x < y < l@.len() && runs@[l@[x] as int].run_id@ == runs@[l@[y] as int].run_id@ implies side_before(runs@, l@[x] as int, l@[y] as int) by {
            let v = l@[x] as int;
            lemma_text_lt_order(runs@[v].run_id@, runs@[v].run_id@, runs@[v].run_id@);
            if y < la.len() {
                assert(la[x] < la[y]);
            } else if x >= la.len() {
                assert(l@[x] == b@[x - la.len()] && l@[y] == b@[y - la.len()]);
                assert(b@[x - la.len()] < b@[y - la.len()]);
            } else {
                assert(l@[y] == b@[y - la.len()]);
            }
        }
    }
    let r = order_by_id(runs, ids, &l, Ghost(member));
    proof {
        assert forall|p: int| 0 <= p < runs@.len() && trains_by_scenario(runs@, scen@, p, ps, ns) == training implies r@.contains(p as usize) by {
            assert(member(p));
        }
        assert forall|k: int| 0 <= k < r@.len() implies #[trigger] r@[k] < runs@.len() && trains_by_scenario(runs@, scen@, r@[k] as int, ps, ns) == training by {
            assert(member(r@[k] as int));
        }
    }
    r
}


/// Every run goes to exactly one side of a split: the training and the
/// validation runs are disjoint and together are all the runs.
pub proof fn lemma_split_partitions_runs(
    train: Seq<usize>,
    valid: Seq<usize>,
    runs: Seq<RunLabel>,
    pos_share: int,
    neg_share: int,
    p: int,
)
    requires
        is_side(train, runs, pos_share, neg_share, true),
        is_side(valid, runs, pos_share, neg_share, false),
        0 <= p < runs.len() <= usize::MAX,
    ensures
        train.contains(p as usize) != valid.contains(p as usize),
{
    if train.contains(p as usize) && valid.contains(p as usize) {
        let a = choose|a: int| 0 <= a < train.len() && train[a] == p as usize;
        let b = choose|b: int| 0 <= b < valid.len() && valid[b] == p as usize;
        assert(train[a] as int == p && valid[b] as int == p);
        assert(in_training(runs, train[a] as int, pos_share, neg_share));
        assert(!in_training(runs, valid[b] as int, pos_share, neg_share));
    }
    if in_training(runs, p, pos_share, neg_share) {
        assert(train.contains(p as usize));
    } else {
        assert(valid.contains(p as usize));
    }
}

/// Every run goes to exactly one side of a split by scenario.
pub proof fn lemma_scenario_split_partitions_runs(
    train: Seq<usize>,
    valid: Seq<usize>,
    runs: Seq<RunLabel>,
    scen: Seq<String>,
    pos_share: int,
    neg_share: int,
    p: int,
)
    requires
        is_scenario_side(train, runs, scen, pos_share, neg_share, true),
        is_scenario_side(valid, runs, scen, pos_share, neg_share, false),
        0 <= p < runs.len() <= usize::MAX,
    ensures
        train.contains(p as usize) != valid.contains(p as usize),
{
    if train.contains(p as usize) && valid.contains(p as usize) {
        let a = choose|a: int| 0 <= a < train.len() && train[a] == p as usize;
        let b = choose|b: int| 0 <= b < valid.len() && valid[b] == p as usize;
        assert(train[a] as int == p && valid[b] as int == p);
        assert(trains_by_scenario(runs, scen, train[a] as int, pos_share, neg_share));
        assert(!trains_by_scenario(runs, scen, valid[b] as int, pos_share, neg_share));
    }
    if trains_by_scenario(runs, scen, p, pos_share, neg_share) {
        assert(train.contains(p as usize));
    } else {
        assert(valid.contains(p as usize));
    }
}


/// The two label groups split the runs: every run is in exactly one.
pub proof fn lemma_groups_cover_runs(runs: Seq<RunLabel>)
    ensures
        group_set(runs, true).len() + group_set(runs, false).len() == runs.len(),
{
    let (a, b) = (group_set(runs, true), group_set(runs, false));
    let all = vstd::set_lib::set_int_range(0, runs.len() as int);
    vstd::set_lib::lemma_int_range(0, runs.len() as int);
    assert(a.subset_of(all) && b.subset_of(all));
    vstd::set_lib::lemma_len_subset(a, all);
    vstd::set_lib::lemma_len_subset(b, all);
    assert(a + b =~= all);
    assert(a.disjoint(b));
    vstd::set_lib::lemma_set_disjoint_lens(a, b);
}

} // verus!
