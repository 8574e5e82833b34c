//! The monitor page's process table: which rows the filters let through and
//! the order of the rows under the chosen column and direction.
//!
//! The floating-point columns are handed over as their bit patterns: the
//! table orders them as `total_cmp` does, by the pattern read as a signed
//! number with the magnitude bits of negative values flipped.

use std::collections::HashSet;

use vstd::prelude::*;

use crate::dto::Pid;
use crate::gui_enums::{MonitorSortKey, SortDirection};
use crate::order::{is_stable_order, stable_order, stably_before, weak_order};
use crate::text::{chars_of, lemma_text_lt_order, text_less, text_lt};
use crate::tree::{lowercase_of, node_matches, node_matches_filter, to_lowercase};

verus! {

broadcast use vstd::std_specs::hash::group_hash_axioms;

/// What the process table reads of a row: the pid, the name, the memory
/// columns and the bit patterns of the floating-point columns.
#[derive(Debug, Clone)]
pub struct ProcessRowKey {
    pub pid: Pid,
    pub name: String,
    pub cpu_top_bits: u64,
    pub cpu_rel_bits: u64,
    pub virtual_mem: u64,
    pub physical_mem: u64,
    pub disk_read_bits: u64,
    pub disk_write_bits: u64,
}

/// The place of a floating-point value in the total order, from its bit
/// pattern: non-negative patterns as they are, negative ones below zero in
/// reverse.
pub open spec fn bits_order_key(bits: u64) -> int {
    if bits < 0x8000_0000_0000_0000 {
        bits as int
    } else {
        0x7FFF_FFFF_FFFF_FFFF - bits as int
    }
}

/// The place of a floating-point value in the total order.
pub fn total_order_key(bits: u64) -> (r: i64)
    ensures
        r as int == bits_order_key(bits),
{
    if bits < 0x8000_0000_0000_0000 {
        bits as i64
    } else {
        -1 - ((bits - 0x8000_0000_0000_0000) as i64)
    }
}

/// Whether row `a` sorts before row `b` in ascending order of a column; the
/// name column compares lower-cased names.
pub open spec fn monitor_column_lt(key: MonitorSortKey, a: ProcessRowKey, b: ProcessRowKey) -> bool {
    match key {
        MonitorSortKey::Pid => a.pid < b.pid,
        MonitorSortKey::Name => text_lt(lowercase_of(a.name@), lowercase_of(b.name@)),
        MonitorSortKey::CpuTop => bits_order_key(a.cpu_top_bits) < bits_order_key(b.cpu_top_bits),
        MonitorSortKey::CpuRel => bits_order_key(a.cpu_rel_bits) < bits_order_key(b.cpu_rel_bits),
        MonitorSortKey::VirtualMemory => a.virtual_mem < b.virtual_mem,
        MonitorSortKey::PhysicalMemory => a.physical_mem < b.physical_mem,
        MonitorSortKey::DiskRead => bits_order_key(a.disk_read_bits) < bits_order_key(
            b.disk_read_bits,
        ),
        MonitorSortKey::DiskWrite => bits_order_key(a.disk_write_bits) < bits_order_key(
            b.disk_write_bits,
        ),
    }
}

/// The order of the table's rows by position: by the column, reversed when descending.
pub open spec fn monitor_less(rows: Seq<ProcessRowKey>, key: MonitorSortKey, dir: SortDirection) -> spec_fn(
    int,
    int,
) -> bool {
    |i: int, j: int|
        if dir == SortDirection::Asc {
            monitor_column_lt(key, rows[i], rows[j])
        } else {
            monitor_column_lt(key, rows[j], rows[i])
        }
}

/// The pids a subtree filter lets through, when one is set.
pub open spec fn subtree_pids(subtree: Option<&HashSet<Pid>>) -> Option<Set<Pid>> {
    match subtree {
        Some(s) => Some(s@),
        None => None,
    }
}

/// A row is shown when it is in the subtree filter, if one is set, and
/// the lower-cased filter text is empty or occurs in its pid or its
/// lower-cased name.
pub open spec fn row_shown(row: ProcessRowKey, filter: Seq<char>, subtree: Option<Set<Pid>>) -> bool {
    &&& match subtree {
        Some(s) => s.contains(row.pid),
        None => true,
    }
    &&& filter.len() == 0 || node_matches(row.pid, lowercase_of(row.name@), filter)
}

proof fn lemma_monitor_column_order(key: MonitorSortKey, a: ProcessRowKey, b: ProcessRowKey, c: ProcessRowKey)
    ensures
        !monitor_column_lt(key, a, a),
        monitor_column_lt(key, a, b) ==> !monitor_column_lt(key, b, a),
        monitor_column_lt(key, a, b) && !monitor_column_lt(key, c, b) ==> monitor_column_lt(key, a, c),
        monitor_column_lt(key, b, a) && !monitor_column_lt(key, b, c) ==> monitor_column_lt(key, c, a),
{
    let (la, lb, lc) = (lowercase_of(a.name@), lowercase_of(b.name@), lowercase_of(c.name@));
    lemma_text_lt_order(la, lb, lc);
    lemma_text_lt_order(lb, lc, la);
    lemma_text_lt_order(lc, lb, la);
    lemma_text_lt_order(lb, la, lc);
}

/// The table's order, taken over any list of positions of the rows, is a
/// strict weak order.
pub proof fn lemma_monitor_weak_order(rows: Seq<ProcessRowKey>, key: MonitorSortKey, dir: SortDirection, pos: Seq<usize>)
    requires
        forall|k: int| 0 <= k < pos.len() ==> pos[k] < rows.len(),
    ensures
        weak_order(|a: int, b: int| monitor_less(rows, key, dir)(pos[a] as int, pos[b] as int), pos.len() as int),
{
    let less = |a: int, b: int| monitor_less(rows, key, dir)(pos[a] as int, pos[b] as int);
    let n = pos.len() as int;
    assert forall|a: int| 0 <= a < n implies !#[trigger] less(a, a) by {
        let x = rows[pos[a] as int];
        lemma_monitor_column_order(key, x, x, x);
    }
    assert forall|a: int, b: int| 0 <= a < n && 0 <= b < n && #[trigger] less(a, b) implies !less(
        b,
        a,
    ) by {
        lemma_monitor_column_order(key, rows[pos[a] as int], rows[pos[b] as int], rows[pos[a] as int]);
    }
    assert forall|a: int, b: int, c: int|
        0 <= a < n && 0 <= b < n && 0 <= c < n && #[trigger] less(a, b) && !less(c, b) implies #[trigger] less(
        a,
        c,
    ) by {
        lemma_monitor_column_order(key, rows[pos[a] as int], rows[pos[b] as int], rows[pos[c] as int]);
    }
}

fn monitor_column_less(key: MonitorSortKey, a: &ProcessRowKey, la: &Vec<char>, b: &ProcessRowKey, lb: &Vec<char>) -> (r: bool)
    requires
        la@ == lowercase_of(a.name@),
        lb@ == lowercase_of(b.name@),
    ensures
        r == monitor_column_lt(key, *a, *b),
{
    match key {
        MonitorSortKey::Pid => a.pid < b.pid,
        MonitorSortKey::Name => text_less(la, lb),
        MonitorSortKey::CpuTop => total_order_key(a.cpu_top_bits) < total_order_key(b.cpu_top_bits),
        MonitorSortKey::CpuRel => total_order_key(a.cpu_rel_bits) < total_order_key(b.cpu_rel_bits),
        MonitorSortKey::VirtualMemory => a.virtual_mem < b.virtual_mem,
        MonitorSortKey::PhysicalMemory => a.physical_mem < b.physical_mem,
        MonitorSortKey::DiskRead => total_order_key(a.disk_read_bits) < total_order_key(
            b.disk_read_bits,
        ),
        MonitorSortKey::DiskWrite => total_order_key(a.disk_write_bits) < total_order_key(
            b.disk_write_bits,
        ),
    }
}

/// Whether the filters let a row through, given its lower-cased name and
/// the lower-cased filter text.
fn row_passes(row: &ProcessRowKey, lowered_name: &Vec<char>, filter: &String, subtree: Option<&HashSet<Pid>>) -> (r: bool)
    requires
        lowered_name@ == lowercase_of(row.name@),
    ensures
        r == row_shown(*row, filter@, subtree_pids(subtree)),
{
    match subtree {
        Some(s) => {
            if !s.contains(&row.pid) {
                return false;
            }
        },
        None => {},
    }
    if filter.as_str().unicode_len() == 0 {
        return true;
    }
    let low = crate::text::string_of(lowered_name);
    node_matches_filter(row.pid, low.as_str(), filter.as_str())
}

/// In any listing that a stable sort by the chosen column and direction
/// gives, every row comes no later than the rows listed after it under
/// that column's own field: ascending puts smaller values first, descending
/// larger ones; the name column compares lower-cased names, the
/// floating-point columns their places in the total order.
pub proof fn lemma_table_sorted_by_column(
    rows: Seq<ProcessRowKey>,
    key: MonitorSortKey,
    dir: SortDirection,
    r: Seq<usize>,
)
    requires
        forall|k: int| 0 <= k < r.len() ==> r[k] < rows.len(),
        forall|i: int, j: int|
            0 <= i < j < r.len() ==> stably_before(monitor_less(rows, key, dir), r[i] as int, r[j] as int),
    ensures
        forall|i: int, j: int|
            #![trigger r[i], r[j]]
            0 <= i < j < r.len() ==> {
                let x = rows[r[i] as int];
                let y = rows[r[j] as int];
                let asc = dir == SortDirection::Asc;
                &&& key == MonitorSortKey::Pid ==> (if asc { x.pid <= y.pid } else { x.pid >= y.pid })
                &&& key == MonitorSortKey::Name ==> (if asc {
                    !text_lt(lowercase_of(y.name@), lowercase_of(x.name@))
                } else {
                    !text_lt(lowercase_of(x.name@), lowercase_of(y.name@))
                })
                &&& key == MonitorSortKey::CpuTop ==> (if asc {
                    bits_order_key(x.cpu_top_bits) <= bits_order_key(y.cpu_top_bits)
                } else {
                    bits_order_key(x.cpu_top_bits) >= bits_order_key(y.cpu_top_bits)
                })
                &&& key == MonitorSortKey::CpuRel ==> (if asc {
                    bits_order_key(x.cpu_rel_bits) <= bits_order_key(y.cpu_rel_bits)
                } else {
                    bits_order_key(x.cpu_rel_bits) >= bits_order_key(y.cpu_rel_bits)
                })
                &&& key == MonitorSortKey::VirtualMemory ==> (if asc {
                    x.virtual_mem <= y.virtual_mem
                } else {
                    x.virtual_mem >= y.virtual_mem
                })
                &&& key == MonitorSortKey::PhysicalMemory ==> (if asc {
                    x.physical_mem <= y.physical_mem
                } else {
                    x.physical_mem >= y.physical_mem
                })
                &&& key == MonitorSortKey::DiskRead ==> (if asc {
                    bits_order_key(x.disk_read_bits) <= bits_order_key(y.disk_read_bits)
                } else {
                    bits_order_key(x.disk_read_bits) >= bits_order_key(y.disk_read_bits)
                })
                &&& key == MonitorSortKey::DiskWrite ==> (if asc {
                    bits_order_key(x.disk_write_bits) <= bits_order_key(y.disk_write_bits)
                } else {
                    bits_order_key(x.disk_write_bits) >= bits_order_key(y.disk_write_bits)
                })
            },
{
    let less = monitor_less(rows, key, dir);
    assert forall|i: int, j: int|
        #![trigger r[i], r[j]]
        0 <= i < j < r.len() implies !less(r[j] as int, r[i] as int) by {
        let (p, q) = (r[i] as int, r[j] as int);
        assert(stably_before(less, p, q));
        lemma_monitor_column_order(key, rows[p], rows[q], rows[p]);
        lemma_monitor_column_order(key, rows[q], rows[p], rows[q]);
    }
}


/// The positions of the rows the table shows, in the order it shows them:
/// each row the filters let through once, sorted by the column in the
/// direction, rows that tie keeping their order.
pub fn process_table_order(
    rows: &Vec<ProcessRowKey>,
    filter_text: &str,
    subtree: Option<&HashSet<Pid>>,
    key: MonitorSortKey,
    dir: SortDirection,
) -> (r: Vec<usize>)
    ensures
        forall|k: int|
            0 <= k < r@.len() ==> r@[k] < rows@.len() && row_shown(
                rows@[r@[k] as int],
                lowercase_of(filter_text@),
                subtree_pids(subtree),
            ),
        forall|k: int|
            0 <= k < rows@.len() && row_shown(#[trigger] rows@[k], lowercase_of(filter_text@), subtree_pids(subtree))
                ==> r@.contains(k as usize),
        forall|i: int, j: int|
            0 <= i < j < r@.len() ==> stably_before(monitor_less(rows@, key, dir), r@[i] as int, r@[j] as int),
{
    let filter = to_lowercase(filter_text);
    let n = rows.len();
    let mut lowered: Vec<Vec<char>> = Vec::new();
    let mut shown: Vec<usize> = Vec::new();
    let mut i: usize = 0;
    while i < n
        invariant
            n == rows@.len(),
            i <= n,
            filter@ == lowercase_of(filter_text@),
            lowered@.len() == i,
            forall|k: int| 0 <= k < i ==> (#[trigger] lowered@[k])@ == lowercase_of(rows@[k].name@),
            forall|k: int| 0 <= k < shown@.len() ==> shown@[k] < i && row_shown(
                rows@[shown@[k] as int],
                filter@,
                subtree_pids(subtree),
            ),
            forall|a: int, b: int| 0 <= a < b < shown@.len() ==> shown@[a] < shown@[b],
            forall|k: int|
                0 <= k < i && row_shown(#[trigger] rows@[k], filter@, subtree_pids(subtree)) ==> shown@.contains(
                    k as usize,
                ),
        decreases n - i,
    {
        let low = to_lowercase(rows[i].name.as_str());
        let lv = chars_of(low.as_str());
        if row_passes(&rows[i], &lv, &filter, subtree) {
            let ghost before = shown@;
            shown.push(i);
            proof {
                assert forall|k: int|
                    0 <= k < i && row_shown(#[trigger] rows@[k], filter@, subtree_pids(subtree)) implies shown@.contains(
                    k as usize,
                ) by {
                    let w = choose|w: int| 0 <= w < before.len() && before[w] == k as usize;
                    assert(shown@[w] == k as usize);
                }
                assert(shown@[shown@.len() - 1] == i);
            }
        }
        lowered.push(lv);
        i = i + 1;
    }
    let m = shown.len();
    let ghost pos = shown@;
    proof {
        lemma_monitor_weak_order(rows@, key, dir, pos);
    }
    let lt = |a: usize, b: usize| -> (x: bool)
        requires
            a < m,
            b < m,
            m == shown@.len(),
            n == rows@.len(),
            lowered@.len() == n,
            forall|k: int| 0 <= k < m ==> shown@[k] < n,
            forall|k: int| 0 <= k < n ==> (#[trigger] lowered@[k])@ == lowercase_of(rows@[k].name@),
        ensures
            x == monitor_less(rows@, key, dir)(shown@[a as int] as int, shown@[b as int] as int),
        {
            let p = shown[a];
            let q = shown[b];
            if dir == SortDirection::Asc {
                monitor_column_less(key, &rows[p], &lowered[p], &rows[q], &lowered[q])
            } else {
                monitor_column_less(key, &rows[q], &lowered[q], &rows[p], &lowered[p])
            }
        };
    let order = stable_order(
        m,
        lt,
        Ghost(|a: int, b: int| monitor_less(rows@, key, dir)(pos[a] as int, pos[b] as int)),
    );
    let mut r: Vec<usize> = Vec::new();
    let mut t: usize = 0;
    while t < m
        invariant
            m == shown@.len(),
            pos == shown@,
            t <= m,
            is_stable_order(
                order@,
                |a: int, b: int| monitor_less(rows@, key, dir)(pos[a] as int, pos[b] as int),
                m as int,
            ),
            r@.len() == t,
            forall|k: int| 0 <= k < t ==> r@[k] == shown@[order@[k] as int],
        decreases m - t,
    {
        r.push(shown[order[t]]);
        t = t + 1;
    }
    proof {
        let less = monitor_less(rows@, key, dir);
        let sub = |a: int, b: int| monitor_less(rows@, key, dir)(pos[a] as int, pos[b] as int);
        assert forall|i: int, j: int| 0 <= i < j < r@.len() implies stably_before(less, r@[i] as int, r@[j] as int) by {
            let (x, y) = (order@[i] as int, order@[j] as int);
            assert(stably_before(sub, x, y));
            if x < y {
                assert(pos[x] < pos[y]);
            } else if y < x {
                assert(pos[y] < pos[x]);
            }
        }
        assert forall|k: int|
            0 <= k < rows@.len() && row_shown(#[trigger] rows@[k], lowercase_of(filter_text@), subtree_pids(subtree))
                implies r@.contains(k as usize) by {
            let w = choose|w: int| 0 <= w < pos.len() && pos[w] == k as usize;
            assert(order@.contains(w as usize));
            let v = choose|v: int| 0 <= v < order@.len() && order@[v] == w as usize;
            assert(r@[v] == k as usize);
        }
    }
    r
}


/// In any listing a stable busiest-first sort gives, every thread's CPU
/// value is at least that of the threads listed after it (in the total
/// order of floating-point values).
pub proof fn lemma_threads_busiest_first(cpu_bits: Seq<u64>, r: Seq<usize>)
    requires
        forall|k: int| 0 <= k < r.len() ==> r[k] < cpu_bits.len(),
        forall|i: int, j: int|
            0 <= i < j < r.len() ==> stably_before(cpu_desc(cpu_bits), r[i] as int, r[j] as int),
    ensures
        forall|i: int, j: int|
            #![trigger r[i], r[j]]
            0 <= i < j < r.len() ==> bits_order_key(cpu_bits[r[i] as int]) >= bits_order_key(
                cpu_bits[r[j] as int],
            ),
{
    assert forall|i: int, j: int|
        #![trigger r[i], r[j]]
        0 <= i < j < r.len() implies bits_order_key(cpu_bits[r[i] as int]) >= bits_order_key(
            cpu_bits[r[j] as int],
        ) by {
        assert(stably_before(cpu_desc(cpu_bits), r[i] as int, r[j] as int));
    }
}


/// The threads of a process as its details list them: the positions of
/// the threads of the pid, busiest first by their CPU column (given as bit
/// patterns), threads that tie keeping their order.
pub fn thread_order_for(pids: &Vec<Pid>, cpu_bits: &Vec<u64>, pid: Pid) -> (r: Vec<usize>)
    requires
        pids@.len() == cpu_bits@.len(),
    ensures
        forall|k: int| 0 <= k < r@.len() ==> #[trigger] r@[k] < pids@.len() && pids@[r@[k] as int] == pid,
        forall|k: int| 0 <= k < pids@.len() && pids@[k] == pid ==> r@.contains(k as usize),
        forall|i: int, j: int|
            0 <= i < j < r@.len() ==> stably_before(cpu_desc(cpu_bits@), r@[i] as int, r@[j] as int),
{
    let n = pids.len();
    let mut pos: Vec<usize> = Vec::new();
    let mut i: usize = 0;
    while i < n
        invariant
            n == pids@.len(),
            i <= n,
            forall|k: int| 0 <= k < pos@.len() ==> pos@[k] < i && pids@[pos@[k] as int] == pid,
            forall|a: int, b: int| 0 <= a < b < pos@.len() ==> pos@[a] < pos@[b],
            forall|k: int| 0 <= k < i && pids@[k] == pid ==> pos@.contains(k as usize),
        decreases n - i,
    {
        if pids[i] == pid {
            let ghost before = pos@;
            pos.push(i);
            proof {
                assert forall|k: int| 0 <= k < i && pids@[k] == pid implies pos@.contains(k as usize) by {
                    let w = choose|w: int| 0 <= w < before.len() && before[w] == k as usize;
                    assert(pos@[w] == k as usize);
                }
                assert(pos@[pos@.len() - 1] == i);
            }
        }
        i = i + 1;
    }
    let m = pos.len();
    let ghost within = |a: int, b: int| cpu_desc(cpu_bits@)(pos@[a] as int, pos@[b] as int);
    proof {
        assert forall|a: int, b: int, c: int|
            0 <= a < m && 0 <= b < m && 0 <= c < m && #[trigger] within(a, b) && !within(c, b) implies #[trigger] within(
            a,
            c,
        ) by {}
        assert(weak_order(within, m as int));
    }
    let lt = |a: usize, b: usize| -> (x: bool)
        requires
            a < m,
            b < m,
            m == pos@.len(),
            n == cpu_bits@.len(),
            forall|k: int| 0 <= k < pos@.len() ==> pos@[k] < n,
        ensures
            x == cpu_desc(cpu_bits@)(pos@[a as int] as int, pos@[b as int] as int),
        { total_order_key(cpu_bits[pos[b]]) < total_order_key(cpu_bits[pos[a]]) };
    let o = stable_order(m, lt, Ghost(within));
    let mut r: Vec<usize> = Vec::new();
    let mut t: usize = 0;
    while t < m
        invariant
            m == pos@.len(),
            t <= m,
            is_stable_order(o@, within, m as int),
            r@.len() == t,
            forall|k: int| 0 <= k < t ==> r@[k] == pos@[o@[k] as int],
        decreases m - t,
    {
        r.push(pos[o[t]]);
        t = t + 1;
    }
    proof {
        let less = cpu_desc(cpu_bits@);
        assert forall|i: int, j: int| 0 <= i < j < r@.len() implies stably_before(less, r@[i] as int, r@[j] as int) by {
            let (x, y) = (o@[i] as int, o@[j] as int);
            assert(stably_before(within, x, y));
            if x < y {
                assert(pos@[x] < pos@[y]);
            } else if y < x {
                assert(pos@[y] < pos@[x]);
            }
        }
        assert forall|k: int| 0 <= k < r@.len() implies #[trigger] r@[k] < pids@.len() && pids@[r@[k] as int] == pid by {
            assert(r@[k] == pos@[o@[k] as int]);
        }
        assert forall|k: int| 0 <= k < pids@.len() && pids@[k] == pid implies r@.contains(k as usize) by {
            let w = choose|w: int| 0 <= w < pos@.len() && pos@[w] == k as usize;
            assert(o@.contains(w as usize));
            let v = choose|v: int| 0 <= v < o@.len() && o@[v] == w as usize;
            assert(r@[v] == k as usize);
        }
    }
    r
}

/// Threads by their CPU column, busiest first.
pub open spec fn cpu_desc(cpu_bits: Seq<u64>) -> spec_fn(int, int) -> bool {
    |a: int, b: int| bits_order_key(cpu_bits[b]) < bits_order_key(cpu_bits[a])
}

} // verus!
