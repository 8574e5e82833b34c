//! The runs of a training data file: its rows grouped by run, the runs in
//! the order of their ids, each run's rows in step order.
//!
//! A run's id is scoped by the file it comes from (`file::run`), so that
//! runs of different files never merge.

use vstd::prelude::*;

use crate::order::{is_stable_order, stable_order, stably_before, weak_order};
use crate::text::{append_chars, append_vec, chars_of, lemma_text_lt_order, string_of, text_less, text_lt};

verus! {

/// What the grouping reads of a row of a run file.
#[derive(Debug, Clone)]
pub struct RunRow {
    pub run_id: String,
    pub step: u64,
}

/// A run: its scoped id and the positions of its rows, in step order.
#[derive(Debug, Clone)]
pub struct RunRows {
    pub run_id: String,
    pub rows: Vec<usize>,
}

/// The id of a row's run, scoped by the file.
pub open spec fn scoped_id(source: Seq<char>, r: RunRow) -> Seq<char> {
    source + "::"@ + r.run_id@
}

/// Rows by run id, then by step.
pub open spec fn id_step_less(ids: Seq<Seq<char>>, rows: Seq<RunRow>) -> spec_fn(int, int) -> bool {
    |a: int, b: int| text_lt(ids[a], ids[b]) || (ids[a] == ids[b] && rows[a].step < rows[b].step)
}

/// Rows by step.
pub open spec fn step_less(rows: Seq<RunRow>) -> spec_fn(int, int) -> bool {
    |a: int, b: int| rows[a].step < rows[b].step
}

/// A row is placed in one of the runs.
pub open spec fn row_placed(r: Seq<RunRows>, k: usize) -> bool {
    exists|g: int, t: int| 0 <= g < r.len() && 0 <= t < r[g].rows@.len() && #[trigger] r[g].rows@[t] == k
}

/// The runs of the rows of a file: every row in the run of its scoped id,
/// the runs in increasing order of their ids (so no id twice), each run's
/// rows in step order, rows of the same step in file order.
pub open spec fn runs_of(source: Seq<char>, rows: Seq<RunRow>, r: Seq<RunRows>) -> bool {
    &&& forall|g: int, t: int|
        0 <= g < r.len() && 0 <= t < r[g].rows@.len() ==> #[trigger] r[g].rows@[t] < rows.len()
            && scoped_id(source, rows[r[g].rows@[t] as int]) == r[g].run_id@
    &&& forall|g: int| 0 <= g < r.len() ==> (#[trigger] r[g]).rows@.len() > 0
    &&& forall|k: usize| k < rows.len() ==> #[trigger] row_placed(r, k)
    &&& forall|i: int, j: int| 0 <= i < j < r.len() ==> text_lt(r[i].run_id@, r[j].run_id@)
    &&& forall|g: int, a: int, b: int|
        0 <= g < r.len() && 0 <= a < b < r[g].rows@.len() ==> stably_before(
            step_less(rows),
            #[trigger] r[g].rows@[a] as int,
            #[trigger] r[g].rows@[b] as int,
        )
}

proof fn lemma_id_step_weak_order(ids: Seq<Seq<char>>, rows: Seq<RunRow>)
    requires
        ids.len() == rows.len(),
    ensures
        weak_order(id_step_less(ids, rows), rows.len() as int),
{
    let less = id_step_less(ids, rows);
    let n = rows.len() as int;
    assert forall|a: int| 0 <= a < n implies !#[trigger] less(a, a) by {
        lemma_text_lt_order(ids[a], ids[a], ids[a]);
    }
    assert forall|a: int, b: int| 0 <= a < n && 0 <= b < n && #[trigger] less(a, b) implies !less(
        b,
        a,
    ) by {
        lemma_text_lt_order(ids[a], ids[b], ids[a]);
        lemma_text_lt_order(ids[b], ids[a], ids[b]);
    }
    assert forall|a: int, b: int, c: int|
        0 <= a < n && 0 <= b < n && 0 <= c < n && #[trigger] less(a, b) && !less(c, b) implies #[trigger] less(
        a,
        c,
    ) by {
        lemma_text_lt_order(ids[a], ids[b], ids[c]);
        lemma_text_lt_order(ids[b], ids[c], ids[a]);
        lemma_text_lt_order(ids[c], ids[b], ids[a]);
    }
}

/// The rows of a file grouped by run: the runs in order of their scoped
/// ids, each with the positions of its rows in step order.
pub fn group_runs(source_key: &str, rows: &Vec<RunRow>) -> (r: Vec<RunRows>)
    ensures
        runs_of(source_key@, rows@, r@),
{
    let n = rows.len();
    let mut ids: Vec<Vec<char>> = Vec::new();
    let mut i: usize = 0;
    while i < n
        invariant
            n == rows@.len(),
            i <= n,
            ids@.len() == i,
            forall|k: int| 0 <= k < i ==> (#[trigger] ids@[k])@ == scoped_id(source_key@, rows@[k]),
        decreases n - i,
    {
        let mut id = chars_of(source_key);
        append_chars(&mut id, "::");
        let rid = chars_of(rows[i].run_id.as_str());
        append_vec(&mut id, &rid);
        proof {
            reveal_strlit("::");
            assert(id@ =~= scoped_id(source_key@, rows@[i as int]));
        }
        ids.push(id);
        i = i + 1;
    }
    let ghost idv = ids@.map_values(|v: Vec<char>| v@);
    proof {
        assert forall|k: int| 0 <= k < n implies idv[k] == scoped_id(source_key@, rows@[k]) by {
            assert(idv[k] == ids@[k]@);
        }
        lemma_id_step_weak_order(idv, rows@);
    }
    let lt = |a: usize, b: usize| -> (x: bool)
        requires
            a < n,
            b < n,
            n == rows@.len(),
            ids@.len() == n,
        ensures
            x == id_step_less(ids@.map_values(|v: Vec<char>| v@), rows@)(a as int, b as int),
        {
            proof {
                lemma_text_lt_order(ids@[a as int]@, ids@[b as int]@, ids@[a as int]@);
            }
            if text_less(&ids[a], &ids[b]) {
                true
            } else if text_less(&ids[b], &ids[a]) {
                false
            } else {
                rows[a].step < rows[b].step
            }
        };
    let o = stable_order(n, lt, Ghost(id_step_less(idv, rows@)));
    let ghost less = id_step_less(idv, rows@);
    let mut runs: Vec<RunRows> = Vec::new();
    let mut t: usize = 0;
    while t < n
        invariant
            n == rows@.len(),
            ids@.len() == n,
            idv == ids@.map_values(|v: Vec<char>| v@),
            forall|k: int| 0 <= k < n ==> idv[k] == scoped_id(source_key@, rows@[k]),
            less == id_step_less(idv, rows@),
            is_stable_order(o@, less, n as int),
            t <= n,
            t == 0 <==> runs@.len() == 0,
            t > 0 ==> runs@.last().run_id@ == idv[o@[t - 1] as int],
            forall|g: int, a: int|
                0 <= g < runs@.len() && 0 <= a < runs@[g].rows@.len() ==> runs@[g].rows@[a] < n
                    && idv[#[trigger] runs@[g].rows@[a] as int] == runs@[g].run_id@
                    && exists|s: int| 0 <= s < t && o@[s] == runs@[g].rows@[a],
            forall|g: int| 0 <= g < runs@.len() ==> (#[trigger] runs@[g]).rows@.len() > 0,
            forall|s: int| 0 <= s < t ==> row_placed(runs@, #[trigger] o@[s]),
            forall|x: int, y: int| 0 <= x < y < runs@.len() ==> text_lt(runs@[x].run_id@, runs@[y].run_id@),
            forall|g: int, a: int, b: int|
                0 <= g < runs@.len() && 0 <= a < b < runs@[g].rows@.len() ==> stably_before(
                    step_less(rows@),
                    #[trigger] runs@[g].rows@[a] as int,
                    #[trigger] runs@[g].rows@[b] as int,
                ),
        decreases n - t,
    {
        let k = o[t];
        let same = if t == 0 {
            false
        } else {
            let p = o[t - 1];
            !text_less(&ids[p], &ids[k]) && !text_less(&ids[k], &ids[p])
        };
        proof {
            assert(idv[k as int] == ids@[k as int]@);
            if t > 0 {
                let p = o@[t - 1] as int;
                assert(idv[p] == ids@[p]@);
                lemma_text_lt_order(idv[p], idv[k as int], idv[p]);
                assert(stably_before(less, p, k as int));
            }
        }
        if same {
            let last = runs.len() - 1;
            let ghost pre = runs@;
            let mut g = runs.pop().unwrap();
            let ghost grows = g.rows@;
            g.rows.push(k);
            runs.push(g);
            proof {
                assert(runs@.len() == pre.len());
                assert forall|q: int| 0 <= q < last implies runs@[q] == pre[q] by {}
                assert(runs@[last as int].rows@ == grows.push(k));
                assert(runs@[last as int].run_id@ == pre[last as int].run_id@);
                // the row just added follows every row of its run in the order
                assert forall|a: int, b: int|
                    0 <= a < b < runs@[last as int].rows@.len() implies stably_before(
                    step_less(rows@),
                    runs@[last as int].rows@[a] as int,
                    runs@[last as int].rows@[b] as int,
                ) by {
                    if b == grows.len() {
                        let x = grows[a] as int;
                        assert(pre[last as int].rows@[a] == grows[a]);
                        let s = choose|s: int| 0 <= s < t && o@[s] == pre[last as int].rows@[a];
                        assert(stably_before(less, o@[s] as int, o@[t as int] as int));
                        assert(idv[x] == idv[k as int]);
                    } else {
                        assert(pre[last as int].rows@[a] == grows[a]);
                        assert(pre[last as int].rows@[b] == grows[b]);
                    }
                }
                assert forall|g2: int, a: int|
                    0 <= g2 < runs@.len() && 0 <= a < runs@[g2].rows@.len() implies runs@[g2].rows@[a] < n
                        && idv[#[trigger] runs@[g2].rows@[a] as int] == runs@[g2].run_id@
                        && exists|s: int| 0 <= s < t + 1 && o@[s] == runs@[g2].rows@[a] by {
                    if g2 == last && a == grows.len() {
                        assert(o@[t as int] == runs@[g2].rows@[a]);
                    } else if g2 == last {
                        assert(runs@[g2].rows@[a] == pre[g2].rows@[a]);
                        let s = choose|s: int| 0 <= s < t && o@[s] == pre[g2].rows@[a];
                        assert(o@[s] == runs@[g2].rows@[a]);
                    } else {
                        let s = choose|s: int| 0 <= s < t && o@[s] == pre[g2].rows@[a];
                        assert(o@[s] == runs@[g2].rows@[a]);
                    }
                }
                assert forall|s: int| 0 <= s < t + 1 implies row_placed(runs@, #[trigger] o@[s]) by {
                    if s == t {
                        assert(runs@[last as int].rows@[grows.len() as int] == o@[s]);
                    } else {
                        let (g2, a) = choose|g2: int, a: int|
                            0 <= g2 < pre.len() && 0 <= a < pre[g2].rows@.len() && #[trigger] pre[g2].rows@[a] == o@[s];
                        if g2 == last {
                            assert(runs@[g2].rows@[a] == o@[s]);
                        } else {
                            assert(runs@[g2].rows@[a] == o@[s]);
                        }
                    }
                }
                assert forall|g2: int, a: int, b: int|
                    0 <= g2 < runs@.len() && 0 <= a < b < runs@[g2].rows@.len() implies stably_before(
                    step_less(rows@),
                    #[trigger] runs@[g2].rows@[a] as int,
                    #[trigger] runs@[g2].rows@[b] as int,
                ) by {
                    if g2 != last {
                        assert(runs@[g2] == pre[g2]);
                    }
                }
            }
        } else {
            let ghost pre = runs@;
            let mut v: Vec<usize> = Vec::new();
            v.push(k);
            let id = string_of(&ids[k]);
            runs.push(RunRows { run_id: id, rows: v });
            proof {
                if t > 0 {
                    let p = o@[t - 1] as int;
                    assert(idv[p] != idv[k as int]);
                    assert(text_lt(idv[p], idv[k as int]));
                    assert forall|x: int, y: int| 0 <= x < y < runs@.len() implies text_lt(
                        runs@[x].run_id@,
                        runs@[y].run_id@,
                    ) by {
                        if y == runs@.len() - 1 && x < pre.len() - 1 {
                            lemma_text_lt_order(pre[x].run_id@, pre[pre.len() - 1].run_id@, idv[k as int]);
                        }
                    }
                }
                assert forall|g2: int, a: int|
                    0 <= g2 < runs@.len() && 0 <= a < runs@[g2].rows@.len() implies runs@[g2].rows@[a] < n
                        && idv[#[trigger] runs@[g2].rows@[a] as int] == runs@[g2].run_id@
                        && exists|s: int| 0 <= s < t + 1 && o@[s] == runs@[g2].rows@[a] by {
                    if g2 == pre.len() {
                        assert(o@[t as int] == runs@[g2].rows@[a]);
                    } else {
                        assert(runs@[g2] == pre[g2]);
                        let s = choose|s: int| 0 <= s < t && o@[s] == pre[g2].rows@[a];
                        assert(o@[s] == runs@[g2].rows@[a]);
                    }
                }
                assert forall|s: int| 0 <= s < t + 1 implies row_placed(runs@, #[trigger] o@[s]) by {
                    if s == t {
                        assert(runs@[pre.len() as int].rows@[0] == o@[s]);
                    } else {
                        let (g2, a) = choose|g2: int, a: int|
                            0 <= g2 < pre.len() && 0 <= a < pre[g2].rows@.len() && #[trigger] pre[g2].rows@[a] == o@[s];
                        assert(runs@[g2] == pre[g2]);
                        assert(runs@[g2].rows@[a] == o@[s]);
                    }
                }
                assert forall|g2: int, a: int, b: int|
                    0 <= g2 < runs@.len() && 0 <= a < b < runs@[g2].rows@.len() implies stably_before(
                    step_less(rows@),
                    #[trigger] runs@[g2].rows@[a] as int,
                    #[trigger] runs@[g2].rows@[b] as int,
                ) by {
                    if g2 != pre.len() {
                        assert(runs@[g2] == pre[g2]);
                    }
                }
            }
        }
        t = t + 1;
    }
    proof {
        assert forall|k: usize| k < rows@.len() implies #[trigger] row_placed(runs@, k) by {
            assert(o@.contains(k));
            let s = choose|s: int| 0 <= s < o@.len() && o@[s] == k;
            assert(row_placed(runs@, o@[s]));
            let (g, a) = choose|g: int, a: int|
                0 <= g < runs@.len() && 0 <= a < runs@[g].rows@.len() && #[trigger] runs@[g].rows@[a] == o@[s];
            assert(runs@[g].rows@[a] == k);
        }
    }
    runs
}

} // verus!
