//! Decisions behind the time-axis charts.

use std::collections::HashMap;

use vstd::prelude::*;

verus! {

/// The scan of the flags before position `flags.len()`: the segments closed
/// so far, whether a run of flagged points is open, and where it started.
pub open spec fn segment_scan(flags: Seq<bool>, last_idx: nat) -> (Seq<(nat, nat)>, bool, nat)
    decreases flags.len(),
{
    if flags.len() == 0 {
        (Seq::empty(), false, 0)
    } else {
        let (segs, open, start) = segment_scan(flags.drop_last(), last_idx);
        let i = (flags.len() - 1) as nat;
        if flags.last() && !open {
            (segs, true, i)
        } else if !flags.last() && open {
            (segs.push((if start >= 1 { (start - 1) as nat } else { 0 }, if i <= last_idx { i } else { last_idx })), false, start)
        } else {
            (segs, open, start)
        }
    }
}

/// The shaded spans of a chart: each run of flagged points, widened by the
/// point before it and ending at the first point after it (or at the last
/// point), as pairs of point indexes.
pub open spec fn flag_segments(flags: Seq<bool>) -> Seq<(nat, nat)> {
    let last_idx: nat = if flags.len() >= 1 { (flags.len() - 1) as nat } else { 0 };
    let (segs, open, start) = segment_scan(flags, last_idx);
    if open {
        segs.push((if start >= 1 { (start - 1) as nat } else { 0 }, last_idx))
    } else {
        segs
    }
}

/// Each segment starts no later than it ends, and ends at a point.
pub open spec fn segments_in_bounds(segs: Seq<(nat, nat)>, last_idx: nat) -> bool {
    forall|k: int| 0 <= k < segs.len() ==> #[trigger] segs[k].0 <= segs[k].1 <= last_idx
}

proof fn lemma_scan_bounds(flags: Seq<bool>, last_idx: nat)
    requires
        flags.len() <= last_idx + 1,
    ensures
        segments_in_bounds(segment_scan(flags, last_idx).0, last_idx),
        segment_scan(flags, last_idx).1 ==> segment_scan(flags, last_idx).2 < flags.len(),
    decreases flags.len(),
{
    if flags.len() > 0 {
        lemma_scan_bounds(flags.drop_last(), last_idx);
        let (segs, open, start) = segment_scan(flags.drop_last(), last_idx);
        let i = (flags.len() - 1) as nat;
        if !flags.last() && open {
            let seg = (if start >= 1 { (start - 1) as nat } else { 0 }, if i <= last_idx { i } else { last_idx });
            assert forall|k: int| 0 <= k < segs.push(seg).len() implies #[trigger] segs.push(seg)[k].0
                <= segs.push(seg)[k].1 <= last_idx by {
                if k < segs.len() {
                    assert(segs.push(seg)[k] == segs[k]);
                }
            }
        }
    }
}

/// Every shaded span starts no later than it ends and ends at a point of
/// the chart.
pub proof fn lemma_flag_segments_in_bounds(flags: Seq<bool>)
    ensures
        segments_in_bounds(
            flag_segments(flags),
            if flags.len() >= 1 {
                (flags.len() - 1) as nat
            } else {
                0
            },
        ),
{
    let last_idx: nat = if flags.len() >= 1 { (flags.len() - 1) as nat } else { 0 };
    lemma_scan_bounds(flags, last_idx);
    let (segs, open, start) = segment_scan(flags, last_idx);
    if open {
        let seg = (if start >= 1 { (start - 1) as nat } else { 0 }, last_idx);
        assert(start < flags.len());
        assert(seg.0 <= seg.1);
        assert forall|k: int| 0 <= k < segs.push(seg).len() implies #[trigger] segs.push(seg)[k].0
            <= segs.push(seg)[k].1 <= last_idx by {
            if k < segs.len() {
                assert(segs.push(seg)[k] == segs[k]);
            } else {
                assert(segs.push(seg)[k] == seg);
            }
        }
        assert(flag_segments(flags) == segs.push(seg));
    }
}

/// The pairs as mathematical integers.
pub open spec fn pair_view(v: Seq<(usize, usize)>) -> Seq<(nat, nat)> {
    v.map_values(|p: (usize, usize)| (p.0 as nat, p.1 as nat))
}

/// The shaded spans of a chart whose points carry the given flags.
pub fn time_axis_flag_segments(flags: &Vec<bool>) -> (r: Vec<(usize, usize)>)
    ensures
        pair_view(r@) == flag_segments(flags@),
{
    let mut segments: Vec<(usize, usize)> = Vec::new();
    let mut in_segment = false;
    let mut start: usize = 0;
    let last_idx: usize = if flags.len() >= 1 {
        flags.len() - 1
    } else {
        0
    };
    let ghost li: nat = last_idx as nat;
    let mut i: usize = 0;
    while i < flags.len()
        invariant
            i <= flags@.len(),
            li == last_idx as nat,
            last_idx as nat == (if flags@.len() >= 1 {
                (flags@.len() - 1) as nat
            } else {
                0nat
            }),
            start <= i,
            ({
                let (segs, open, st) = segment_scan(flags@.take(i as int), li);
                &&& pair_view(segments@) == segs
                &&& open == in_segment
                &&& st == start as nat
            }),
        decreases flags@.len() - i,
    {
        let flag = flags[i];
        proof {
            assert(flags@.take(i + 1).drop_last() =~= flags@.take(i as int));
            assert(flags@.take(i + 1).last() == flag);
        }
        if flag && !in_segment {
            in_segment = true;
            start = i;
        } else if !flag && in_segment {
            in_segment = false;
            let s = if start >= 1 {
                start - 1
            } else {
                0
            };
            let e = if i <= last_idx {
                i
            } else {
                last_idx
            };
            let ghost before = segments@;
            segments.push((s, e));
            proof {
                assert(pair_view(segments@) =~= pair_view(before).push((s as nat, e as nat)));
            }
        }
        i = i + 1;
    }
    assert(flags@.take(flags@.len() as int) =~= flags@);
    if in_segment {
        let s = if start >= 1 {
            start - 1
        } else {
            0
        };
        let ghost before = segments@;
        segments.push((s, last_idx));
        proof {
            assert(pair_view(segments@) =~= pair_view(before).push((s as nat, last_idx as nat)));
        }
    }
    segments
}

/// The number of points a history series keeps.
pub const MAX_HISTORY_POINTS: usize = 60;

/// The last `MAX_HISTORY_POINTS` points of a series.
pub open spec fn bounded<T>(s: Seq<T>) -> Seq<T> {
    if s.len() > MAX_HISTORY_POINTS {
        s.skip(s.len() - MAX_HISTORY_POINTS)
    } else {
        s
    }
}

/// Appends a point to a history series, dropping the oldest points beyond
/// the last `MAX_HISTORY_POINTS`.
pub fn push_bounded<T>(history: &mut Vec<T>, value: T)
    requires
        old(history)@.len() < usize::MAX,
    ensures
        final(history)@ == bounded(old(history)@.push(value)),
{
    history.push(value);
    let n = history.len();
    if n > MAX_HISTORY_POINTS {
        let kept = history.split_off(n - MAX_HISTORY_POINTS);
        *history = kept;
    }
}


/// The number of rendered charts kept at most.
pub const CHART_CACHE_MAX_ENTRIES: usize = 32;

/// Rendered charts by the key of what they show. A full cache is emptied
/// before the next chart goes in.
pub struct ChartCache {
    pub entries: HashMap<u64, String>,
}

/// The charts after one more goes in.
pub open spec fn cache_after_put(m: Map<u64, String>, key: u64, svg: String) -> Map<u64, String> {
    if m.len() >= CHART_CACHE_MAX_ENTRIES {
        Map::<u64, String>::empty().insert(key, svg)
    } else {
        m.insert(key, svg)
    }
}

impl ChartCache {
    /// An empty cache.
    pub fn new() -> (r: Self)
        ensures
            r.entries@ == Map::<u64, String>::empty(),
    {
        broadcast use vstd::std_specs::hash::group_hash_axioms;

        ChartCache { entries: HashMap::new() }
    }

    /// The chart kept under a key.
    pub fn get(&self, key: u64) -> (r: Option<String>)
        ensures
            r == (if self.entries@.contains_key(key) {
                Some(self.entries@[key])
            } else {
                None::<String>
            }),
    {
        broadcast use vstd::std_specs::hash::group_hash_axioms;

        match self.entries.get(&key) {
            Some(svg) => Some(svg.clone()),
            None => None,
        }
    }

    /// Keeps a chart under its key, emptying a full cache first.
    pub fn put(&mut self, key: u64, svg: String)
        ensures
            final(self).entries@ == cache_after_put(old(self).entries@, key, svg),
    {
        broadcast use vstd::std_specs::hash::group_hash_axioms;

        if self.entries.len() >= CHART_CACHE_MAX_ENTRIES {
            self.entries.clear();
        }
        self.entries.insert(key, svg);
    }
}

/// The cache never holds more charts than its limit.
pub proof fn lemma_cache_stays_bounded(m: Map<u64, String>, key: u64, svg: String)
    requires
        m.dom().finite(),
        m.len() <= CHART_CACHE_MAX_ENTRIES,
    ensures
        cache_after_put(m, key, svg).len() <= CHART_CACHE_MAX_ENTRIES,
        cache_after_put(m, key, svg).dom().finite(),
        cache_after_put(m, key, svg)[key] == svg,
{
    if m.len() >= CHART_CACHE_MAX_ENTRIES {
        assert(Map::<u64, String>::empty().insert(key, svg).dom() =~= set![key]);
    } else {
        if m.contains_key(key) {
            assert(m.insert(key, svg).dom() =~= m.dom());
        } else {
            assert(m.insert(key, svg).dom() =~= m.dom().insert(key));
        }
    }
}

} // verus!
