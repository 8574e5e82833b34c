//! The leak page's table: which detected leaks raise an alert, the order of
//! the rows under the chosen column and direction, and the pill that sums
//! up the scans of a process.

use std::collections::HashSet;

use vstd::prelude::*;

use crate::double_ratio::{
    common_scale, double_less, double_lt, lemma_double_lt_is_value_order, lemma_double_order,
    lemma_quotient_double_normal, quotient_double, quotient_double_of,
};
use crate::dto::Pid;
use crate::gui_enums::{ConfidenceBand, DeepScanStatus, LeaksSortKey, SortDirection};
use crate::leaks::{band_of, views_of, LeakConfidenceStats, LeakStatsView};
use crate::order::{is_stable_order, stable_order, stably_before, weak_order};
use crate::text::{chars_of, lemma_text_lt_order, text_less, text_lt};
use crate::tree::{lowercase_of, to_lowercase};

verus! {

broadcast use vstd::std_specs::hash::group_hash_axioms;

/// A detected leak raises an alert while it is active, its confidence is
/// high and its alert was not dismissed.
pub open spec fn raises_alert(v: LeakStatsView, dismissed: Set<Pid>) -> bool {
    v.is_active && band_of(v) == ConfidenceBand::High && !dismissed.contains(v.pid)
}

/// The positions of the detected leaks that raise an alert, in order.
pub fn alert_positions(detected: &Vec<LeakConfidenceStats>, dismissed: &HashSet<Pid>) -> (r: Vec<usize>)
    ensures
        forall|k: int|
            0 <= k < r@.len() ==> r@[k] < detected@.len() && raises_alert(
                detected@[r@[k] as int]@,
                dismissed@,
            ),
        forall|i: int, j: int| 0 <= i < j < r@.len() ==> r@[i] < r@[j],
        forall|k: int|
            0 <= k < detected@.len() && raises_alert(#[trigger] detected@[k]@, dismissed@)
                ==> r@.contains(k as usize),
{
    let mut r: Vec<usize> = Vec::new();
    let mut i: usize = 0;
    while i < detected.len()
        invariant
            i <= detected@.len(),
            forall|k: int|
                0 <= k < r@.len() ==> r@[k] < i && raises_alert(
                    detected@[r@[k] as int]@,
                    dismissed@,
                ),
            forall|a: int, b: int| 0 <= a < b < r@.len() ==> r@[a] < r@[b],
            forall|k: int|
                0 <= k < i && raises_alert(#[trigger] detected@[k]@, dismissed@) ==> r@.contains(
                    k as usize,
                ),
        decreases detected@.len() - i,
    {
        let l = &detected[i];
        if l.is_active && l.confidence_band() == ConfidenceBand::High && !dismissed.contains(&l.pid) {
            let ghost before = r@;
            r.push(i);
            proof {
                assert forall|k: int|
                    0 <= k < i && raises_alert(#[trigger] detected@[k]@, dismissed@) implies r@.contains(
                    k as usize,
                ) by {
                    let w = choose|w: int| 0 <= w < before.len() && before[w] == k as usize;
                    assert(r@[w] == k as usize);
                }
                assert(r@[r@.len() - 1] == i);
            }
        }
        i = i + 1;
    }
    r
}

/// The confidence of a leak, the double `anomalous / total`; zero while
/// nothing was counted.
pub open spec fn raw_confidence(v: LeakStatsView) -> (nat, int) {
    if v.total_entries == 0 {
        (0, 0)
    } else {
        quotient_double(v.anomalous_entries, v.total_entries)
    }
}

/// Whether `a` sorts before `b` in ascending order of a column; the name
/// column compares lower-cased names, and an active leak sorts before an
/// ended one.
pub open spec fn column_lt(key: LeaksSortKey, a: LeakStatsView, b: LeakStatsView) -> bool {
    match key {
        LeaksSortKey::Pid => a.pid < b.pid,
        LeaksSortKey::Name => text_lt(lowercase_of(a.name), lowercase_of(b.name)),
        LeaksSortKey::Confidence => double_lt(raw_confidence(a), raw_confidence(b)),
        LeaksSortKey::Anomalous => a.anomalous_entries < b.anomalous_entries,
        LeaksSortKey::Total => a.total_entries < b.total_entries,
        LeaksSortKey::Status => a.is_active && !b.is_active,
    }
}

/// The order of the table's rows: by the column, reversed when descending.
pub open spec fn table_less(rows: Seq<LeakStatsView>, key: LeaksSortKey, dir: SortDirection) -> spec_fn(
    int,
    int,
) -> bool {
    |i: int, j: int|
        if dir == SortDirection::Asc {
            column_lt(key, rows[i], rows[j])
        } else {
            column_lt(key, rows[j], rows[i])
        }
}

/// Each column orders the rows by a key: no row before itself, never two
/// rows each before the other, and rows that tie or follow stay on their side.
proof fn lemma_column_order(key: LeaksSortKey, a: LeakStatsView, b: LeakStatsView, c: LeakStatsView)
    ensures
        !column_lt(key, a, a),
        column_lt(key, a, b) ==> !column_lt(key, b, a),
        column_lt(key, a, b) && !column_lt(key, c, b) ==> column_lt(key, a, c),
        column_lt(key, b, a) && !column_lt(key, b, c) ==> column_lt(key, c, a),
{
    let (la, lb, lc) = (lowercase_of(a.name), lowercase_of(b.name), lowercase_of(c.name));
    lemma_text_lt_order(la, lb, lc);
    lemma_text_lt_order(lb, lc, la);
    lemma_text_lt_order(lc, lb, la);
    lemma_text_lt_order(lb, la, lc);
    let (ra, rb, rc) = (raw_confidence(a), raw_confidence(b), raw_confidence(c));
    lemma_double_order(ra, rb, rc);
    lemma_double_order(rc, rb, ra);
    lemma_double_order(rb, rc, ra);
    lemma_double_order(rb, ra, rc);
    lemma_double_order(ra, rc, rb);
    lemma_double_order(rc, ra, rb);
}

/// The table's order is a strict weak order, so a stable sort by it is well defined.
pub proof fn lemma_table_weak_order(rows: Seq<LeakStatsView>, key: LeaksSortKey, dir: SortDirection)
    ensures
        weak_order(table_less(rows, key, dir), rows.len() as int),
{
    let less = table_less(rows, key, dir);
    let n = rows.len() as int;
    assert forall|a: int| 0 <= a < n implies !#[trigger] less(a, a) by {
        lemma_column_order(key, rows[a], rows[a], rows[a]);
    }
    assert forall|a: int, b: int| 0 <= a < n && 0 <= b < n && #[trigger] less(a, b) implies !less(
        b,
        a,
    ) by {
        lemma_column_order(key, rows[a], rows[b], rows[a]);
    }
    assert forall|a: int, b: int, c: int|
        0 <= a < n && 0 <= b < n && 0 <= c < n && #[trigger] less(a, b) && !less(c, b) implies #[trigger] less(
        a,
        c,
    ) by {
        lemma_column_order(key, rows[a], rows[b], rows[c]);
    }
}

/// Two rows of which the later is not before the earlier under a column
/// are in that column's order.
proof fn lemma_leak_rows_in_order(key: LeaksSortKey, dir: SortDirection, x: LeakStatsView, y: LeakStatsView)
    requires
        !(if dir == SortDirection::Asc {
            column_lt(key, y, x)
        } else {
            column_lt(key, x, y)
        }),
    ensures
        ({
                let asc = dir == SortDirection::Asc;
                let s = common_scale(raw_confidence(x), raw_confidence(y));
                &&& key == LeaksSortKey::Pid ==> (if asc { x.pid <= y.pid } else { x.pid >= y.pid })
                &&& key == LeaksSortKey::Name ==> (if asc {
                    !text_lt(lowercase_of(y.name), lowercase_of(x.name))
                } else {
                    !text_lt(lowercase_of(x.name), lowercase_of(y.name))
                })
                &&& key == LeaksSortKey::Confidence ==> (if asc { s.0 <= s.1 } else { s.0 >= s.1 })
                &&& key == LeaksSortKey::Anomalous ==> (if asc {
                    x.anomalous_entries <= y.anomalous_entries
                } else {
                    x.anomalous_entries >= y.anomalous_entries
                })
                &&& key == LeaksSortKey::Total ==> (if asc {
                    x.total_entries <= y.total_entries
                } else {
                    x.total_entries >= y.total_entries
                })
                &&& key == LeaksSortKey::Status ==> (if asc {
                    !(y.is_active && !x.is_active)
                } else {
                    !(x.is_active && !y.is_active)
                })
        }),
{
    let (cx, cy) = (raw_confidence(x), raw_confidence(y));
    if x.total_entries > 0 {
        lemma_quotient_double_normal(x.anomalous_entries, x.total_entries);
    }
    if y.total_entries > 0 {
        lemma_quotient_double_normal(y.anomalous_entries, y.total_entries);
    }
    lemma_double_lt_is_value_order(cx, cy);
    lemma_double_lt_is_value_order(cy, cx);
    let la = lowercase_of(x.name);
    let lb = lowercase_of(y.name);
    lemma_text_lt_order(la, lb, la);
}

/// In the table's order under a column and direction, every row comes no
/// later than the rows listed after it under that column's own field:
/// ascending puts smaller pids, names (lower-cased), confidences (the
/// numbers the doubles are), anomalous and counted entries first, and
/// active leaks before ended ones; descending reverses each.
pub proof fn lemma_leak_table_sorted_by_column(
    rows: Seq<LeakStatsView>,
    key: LeaksSortKey,
    dir: SortDirection,
    r: Seq<usize>,
)
    requires
        is_stable_order(r, table_less(rows, key, dir), rows.len() as int),
    ensures
        forall|i: int, j: int|
            #![trigger r[i], r[j]]
            0 <= i < j < r.len() ==> {
                let x = rows[r[i] as int];
                let y = rows[r[j] as int];
                let asc = dir == SortDirection::Asc;
                let s = common_scale(raw_confidence(x), raw_confidence(y));
                &&& key == LeaksSortKey::Pid ==> (if asc { x.pid <= y.pid } else { x.pid >= y.pid })
                &&& key == LeaksSortKey::Name ==> (if asc {
                    !text_lt(lowercase_of(y.name), lowercase_of(x.name))
                } else {
                    !text_lt(lowercase_of(x.name), lowercase_of(y.name))
                })
                &&& key == LeaksSortKey::Confidence ==> (if asc { s.0 <= s.1 } else { s.0 >= s.1 })
                &&& key == LeaksSortKey::Anomalous ==> (if asc {
                    x.anomalous_entries <= y.anomalous_entries
                } else {
                    x.anomalous_entries >= y.anomalous_entries
                })
                &&& key == LeaksSortKey::Total ==> (if asc {
                    x.total_entries <= y.total_entries
                } else {
                    x.total_entries >= y.total_entries
                })
                &&& key == LeaksSortKey::Status ==> (if asc {
                    !(y.is_active && !x.is_active)
                } else {
                    !(x.is_active && !y.is_active)
                })
            },
{
    let less = table_less(rows, key, dir);
    assert forall|i: int, j: int|
        #![trigger r[i], r[j]]
        0 <= i < j < r.len() implies {
            let x = rows[r[i] as int];
            let y = rows[r[j] as int];
            let asc = dir == SortDirection::Asc;
            let s = common_scale(raw_confidence(x), raw_confidence(y));
            &&& key == LeaksSortKey::Pid ==> (if asc { x.pid <= y.pid } else { x.pid >= y.pid })
            &&& key == LeaksSortKey::Name ==> (if asc {
                !text_lt(lowercase_of(y.name), lowercase_of(x.name))
            } else {
                !text_lt(lowercase_of(x.name), lowercase_of(y.name))
            })
            &&& key == LeaksSortKey::Confidence ==> (if asc { s.0 <= s.1 } else { s.0 >= s.1 })
            &&& key == LeaksSortKey::Anomalous ==> (if asc {
                x.anomalous_entries <= y.anomalous_entries
            } else {
                x.anomalous_entries >= y.anomalous_entries
            })
            &&& key == LeaksSortKey::Total ==> (if asc {
                x.total_entries <= y.total_entries
            } else {
                x.total_entries >= y.total_entries
            })
            &&& key == LeaksSortKey::Status ==> (if asc {
                !(y.is_active && !x.is_active)
            } else {
                !(x.is_active && !y.is_active)
            })
        } by {
        let (p, q) = (r[i] as int, r[j] as int);
        assert(stably_before(less, p, q));
        lemma_column_order(key, rows[p], rows[q], rows[p]);
        lemma_column_order(key, rows[q], rows[p], rows[q]);
        lemma_leak_rows_in_order(key, dir, rows[p], rows[q]);
    }
}

fn column_less(key: LeaksSortKey, a: &LeakConfidenceStats, la: &Vec<char>, b: &LeakConfidenceStats, lb: &Vec<char>) -> (r: bool)
    requires
        la@ == lowercase_of(a.name@),
        lb@ == lowercase_of(b.name@),
    ensures
        r == column_lt(key, a@, b@),
{
    match key {
        LeaksSortKey::Pid => a.pid < b.pid,
        LeaksSortKey::Name => text_less(la, lb),
        LeaksSortKey::Confidence => {
            let ca = if a.total_entries == 0 {
                (0u128, 0i32)
            } else {
                quotient_double_of(a.anomalous_entries, a.total_entries)
            };
            let cb = if b.total_entries == 0 {
                (0u128, 0i32)
            } else {
                quotient_double_of(b.anomalous_entries, b.total_entries)
            };
            double_less(ca, cb)
        },
        LeaksSortKey::Anomalous => a.anomalous_entries < b.anomalous_entries,
        LeaksSortKey::Total => a.total_entries < b.total_entries,
        LeaksSortKey::Status => a.is_active && !b.is_active,
    }
}

/// The positions of the detected leaks in the order the table shows them:
/// sorted by the column in the direction, rows that tie keeping their order.
pub fn leak_table_order(detected: &Vec<LeakConfidenceStats>, key: LeaksSortKey, dir: SortDirection) -> (r: Vec<usize>)
    ensures
        is_stable_order(r@, table_less(views_of(detected@), key, dir), detected@.len() as int),
{
    let n = detected.len();
    let mut lowered: Vec<Vec<char>> = Vec::new();
    let mut i: usize = 0;
    while i < n
        invariant
            n == detected@.len(),
            i <= n,
            lowered@.len() == i,
            forall|k: int| 0 <= k < i ==> (#[trigger] lowered@[k])@ == lowercase_of(detected@[k].name@),
        decreases n - i,
    {
        let low = to_lowercase(detected[i].name.as_str());
        lowered.push(chars_of(low.as_str()));
        i = i + 1;
    }
    let ghost rows = views_of(detected@);
    proof {
        lemma_table_weak_order(rows, key, dir);
    }
    let lt = |a: usize, b: usize| -> (x: bool)
        requires
            a < n,
            b < n,
            n == detected@.len(),
            lowered@.len() == n,
            forall|k: int| 0 <= k < n ==> (#[trigger] lowered@[k])@ == lowercase_of(detected@[k].name@),
        ensures
            x == table_less(views_of(detected@), key, dir)(a as int, b as int),
        {
            if dir == SortDirection::Asc {
                column_less(key, &detected[a], &lowered[a], &detected[b], &lowered[b])
            } else {
                column_less(key, &detected[b], &lowered[b], &detected[a], &lowered[a])
            }
        };
    stable_order(n, lt, Ghost(table_less(rows, key, dir)))
}

/// The pill of a process's scans: its text and its style.
pub open spec fn pill_of(
    deep_status: Option<DeepScanStatus>,
    deep_has_data: bool,
    reach_status: Option<DeepScanStatus>,
) -> (Seq<char>, Seq<char>) {
    let capturing = deep_status == Some(DeepScanStatus::Running);
    let reach_done = reach_status == Some(DeepScanStatus::Done);
    if capturing && reach_done {
        ("alloc \u{25b6} + reach"@, "leak-pill leak-pill-capturing"@)
    } else if capturing {
        ("alloc \u{25b6}"@, "leak-pill leak-pill-capturing"@)
    } else if deep_has_data && reach_done {
        ("alloc + reach"@, "leak-pill leak-pill-joined"@)
    } else if reach_done {
        ("reachability"@, "leak-pill leak-pill-reachability"@)
    } else if deep_has_data {
        ("allocation"@, "leak-pill leak-pill-allocation"@)
    } else if reach_status == Some(DeepScanStatus::Running) {
        ("scanning\u{2026}"@, "leak-pill leak-pill-running"@)
    } else if deep_status == Some(DeepScanStatus::Failed) || reach_status == Some(
        DeepScanStatus::Failed,
    ) {
        ("failed"@, "leak-pill leak-pill-failed"@)
    } else {
        ("no scans"@, "leak-pill leak-pill-empty"@)
    }
}

/// The pill of a process's scans. An allocation capture runs until stopped,
/// so a running one is shown as capturing and one that stopped with a
/// report still counts as data.
pub fn analysis_pill(
    deep_status: Option<DeepScanStatus>,
    deep_has_data: bool,
    reach_status: Option<DeepScanStatus>,
) -> (r: (&'static str, &'static str))
    ensures
        (r.0@, r.1@) == pill_of(deep_status, deep_has_data, reach_status),
{
    let capturing = deep_status == Some(DeepScanStatus::Running);
    let reach_done = reach_status == Some(DeepScanStatus::Done);
    if capturing && reach_done {
        ("alloc \u{25b6} + reach", "leak-pill leak-pill-capturing")
    } else if capturing {
        ("alloc \u{25b6}", "leak-pill leak-pill-capturing")
    } else if deep_has_data && reach_done {
        ("alloc + reach", "leak-pill leak-pill-joined")
    } else if reach_done {
        ("reachability", "leak-pill leak-pill-reachability")
    } else if deep_has_data {
        ("allocation", "leak-pill leak-pill-allocation")
    } else if reach_status == Some(DeepScanStatus::Running) {
        ("scanning\u{2026}", "leak-pill leak-pill-running")
    } else if deep_status == Some(DeepScanStatus::Failed) || reach_status == Some(
        DeepScanStatus::Failed,
    ) {
        ("failed", "leak-pill leak-pill-failed")
    } else {
        ("no scans", "leak-pill leak-pill-empty")
    }
}

} // verus!
