use std::collections::HashMap;

use vstd::prelude::*;

use crate::double_ratio::{
    common_scale, double_less, double_lt, lemma_double_lt_is_value_order, lemma_double_order,
    lemma_quotient_double_normal, quotient_double, quotient_double_of, same_double, same_double_of,
};
use crate::dto::Pid;
use crate::gui_enums::{ConfidenceBand, TriageSeverity};
use crate::pid_map::{PidMap, entries_map, unique_keys, lemma_entries_map, lemma_entries_map_values, lemma_entries_map_filter};
use crate::text::{append_chars, append_vec, dec, dec_chars, string_of};

verus! {

broadcast use vstd::std_specs::hash::group_hash_axioms;

/// Samples a process must have been observed in before its evidence counts.
pub const WARMUP_POINTS: u64 = 24;

/// Counted samples a process needs before its confidence is shown.
pub const MIN_EVIDENCE_POINTS: u64 = 10;

/// Consecutive anomalous samples that make an anomaly sustained.
pub const ANOMALY_SUSTAINED_THRESHOLD: u32 = 5;

/// Idle cycles after which an absent process with evidence is forgotten.
pub const STALE_FLAGGED_CYCLES: u64 = 900;

/// Idle cycles after which an absent process without evidence is forgotten.
pub const STALE_CLEAN_CYCLES: u64 = 150;

// ---------------------------------------------------------------------------
// Hashing of command lines
// ---------------------------------------------------------------------------

/// 64-bit FNV-1a of a byte sequence.
pub open spec fn fnv1a(bytes: Seq<u8>) -> u64
    decreases bytes.len(),
{
    if bytes.len() == 0 {
        1469598103934665603u64
    } else {
        (fnv1a(bytes.drop_last()) ^ (bytes.last() as u64)).wrapping_mul(1099511628211u64)
    }
}

/// The FNV-1a hash of the UTF-8 bytes of `input`.
pub fn simple_hash(input: &str) -> (h: u64)
    ensures
        h == fnv1a(vstd::utf8::encode_utf8(input@)),
{
    let bytes = input.as_bytes();
    let mut hash: u64 = 1469598103934665603;
    let mut i: usize = 0;
    while i < bytes.len()
        invariant
            i <= bytes@.len(),
            bytes@ == vstd::utf8::encode_utf8(input@),
            hash == fnv1a(bytes@.take(i as int)),
        decreases bytes@.len() - i,
    {
        proof {
            assert(bytes@.take(i + 1).drop_last() =~= bytes@.take(i as int));
        }
        hash = (hash ^ (bytes[i] as u64)).wrapping_mul(1099511628211);
        i = i + 1;
    }
    proof {
        assert(bytes@.take(bytes@.len() as int) =~= bytes@);
    }
    hash
}

// ---------------------------------------------------------------------------
// Per-process evidence
// ---------------------------------------------------------------------------

/// The evidence gathered about one process across sampling cycles.
#[derive(Debug)]
pub struct LeakConfidenceStats {
    pub pid: Pid,
    pub name: String,
    pub identity_key: String,
    pub total_entries: u64,
    pub anomalous_entries: u64,
    pub is_active: bool,
    pub observed_entries: u64,
    pub last_seen_anomalous: bool,
    pub first_seen_cycle: u64,
    pub last_seen_cycle: u64,
    /// Unix time in milliseconds of the first sustained anomaly.
    pub first_detected_at: Option<i64>,
    /// Unix time in milliseconds of the latest sustained anomaly.
    pub last_detected_at: Option<i64>,
    pub anomalous_streak: u32,
    pub is_pinned: bool,
    pub ignored_for_session: bool,
    pub ignored_persistent: bool,
    /// Whether the sample before the latest one was anomalous; the reason
    /// shown for a flagged process speaks of a recent anomaly when it was.
    pub recent_anomaly_reason: bool,
}

/// The mathematical content of [`LeakConfidenceStats`].
pub struct LeakStatsView {
    pub pid: Pid,
    pub name: Seq<char>,
    pub identity_key: Seq<char>,
    pub total_entries: u64,
    pub anomalous_entries: u64,
    pub is_active: bool,
    pub observed_entries: u64,
    pub last_seen_anomalous: bool,
    pub first_seen_cycle: u64,
    pub last_seen_cycle: u64,
    pub first_detected_at: Option<i64>,
    pub last_detected_at: Option<i64>,
    pub anomalous_streak: u32,
    pub is_pinned: bool,
    pub ignored_for_session: bool,
    pub ignored_persistent: bool,
    pub recent_anomaly_reason: bool,
}

impl View for LeakConfidenceStats {
    type V = LeakStatsView;

    open spec fn view(&self) -> LeakStatsView {
        LeakStatsView {
            pid: self.pid,
            name: self.name@,
            identity_key: self.identity_key@,
            total_entries: self.total_entries,
            anomalous_entries: self.anomalous_entries,
            is_active: self.is_active,
            observed_entries: self.observed_entries,
            last_seen_anomalous: self.last_seen_anomalous,
            first_seen_cycle: self.first_seen_cycle,
            last_seen_cycle: self.last_seen_cycle,
            first_detected_at: self.first_detected_at,
            last_detected_at: self.last_detected_at,
            anomalous_streak: self.anomalous_streak,
            is_pinned: self.is_pinned,
            ignored_for_session: self.ignored_for_session,
            ignored_persistent: self.ignored_persistent,
            recent_anomaly_reason: self.recent_anomaly_reason,
        }
    }
}

/// The evidence of a process first seen in cycle `cycle`.
pub open spec fn stats_new(pid: Pid, name: Seq<char>, cycle: u64) -> LeakStatsView {
    LeakStatsView {
        pid,
        name,
        identity_key: Seq::empty(),
        total_entries: 0,
        anomalous_entries: 0,
        is_active: false,
        observed_entries: 0,
        last_seen_anomalous: false,
        first_seen_cycle: cycle,
        last_seen_cycle: cycle,
        first_detected_at: None,
        last_detected_at: None,
        anomalous_streak: 0,
        is_pinned: false,
        ignored_for_session: false,
        ignored_persistent: false,
        recent_anomaly_reason: false,
    }
}

/// The identity key of a process: its pid, the cycle it was first seen in
/// and the hash of its command line.
pub open spec fn identity_key_of(pid: Pid, first_seen_cycle: u64, cmd_hash: u64) -> Seq<char> {
    "pid:"@ + dec(pid as nat) + "|first:"@ + dec(first_seen_cycle as nat) + "|cmd:"@ + dec(
        cmd_hash as nat,
    )
}

pub open spec fn sat_inc_u64(x: u64) -> u64 {
    if x == u64::MAX {
        x
    } else {
        (x + 1) as u64
    }
}

pub open spec fn sat_inc_u32(x: u32) -> u32 {
    if x == u32::MAX {
        x
    } else {
        (x + 1) as u32
    }
}

/// The evidence of a process after one more sample: it was seen in `cycle`
/// under `name`, anomalous or not, at unix time `at` (milliseconds).
pub open spec fn sample_update(
    old: LeakStatsView,
    name: Seq<char>,
    cycle: u64,
    is_anomalous: bool,
    cmd_hash: u64,
    at: i64,
) -> LeakStatsView {
    let observed = sat_inc_u64(old.observed_entries);
    let streak = if is_anomalous {
        sat_inc_u32(old.anomalous_streak)
    } else {
        0u32
    };
    let sustained = is_anomalous && streak >= ANOMALY_SUSTAINED_THRESHOLD;
    let warm = observed > WARMUP_POINTS;
    LeakStatsView {
        name,
        last_seen_cycle: cycle,
        identity_key: identity_key_of(old.pid, old.first_seen_cycle, cmd_hash),
        observed_entries: observed,
        anomalous_streak: streak,
        total_entries: if warm {
            sat_inc_u64(old.total_entries)
        } else {
            old.total_entries
        },
        anomalous_entries: if warm && sustained {
            sat_inc_u64(old.anomalous_entries)
        } else {
            old.anomalous_entries
        },
        first_detected_at: if sustained && old.first_detected_at is None {
            Some(at)
        } else {
            old.first_detected_at
        },
        last_detected_at: if sustained {
            Some(at)
        } else {
            old.last_detected_at
        },
        recent_anomaly_reason: old.last_seen_anomalous,
        is_active: true,
        last_seen_anomalous: is_anomalous,
        ..old
    }
}

/// Whether enough samples were observed for evidence to count.
pub open spec fn warmup_complete(v: LeakStatsView) -> bool {
    v.observed_entries > WARMUP_POINTS
}

/// Whether the confidence of a process is shown.
pub open spec fn confidence_shown(v: LeakStatsView) -> bool {
    v.total_entries >= MIN_EVIDENCE_POINTS
}

/// The double nearest to 0.7: 6305039478318694 * 2^-53.
pub open spec fn seven_tenths() -> (nat, int) {
    (6305039478318694, -53)
}

/// The double nearest to 0.4: 7205759403792794 * 2^-54.
pub open spec fn four_tenths() -> (nat, int) {
    (7205759403792794, -54)
}

/// Whether the confidence `anomalous / total`, as a double, reaches 0.7.
pub open spec fn ratio_reaches_high(a: u64, t: u64) -> bool {
    !double_lt(quotient_double(a, t), seven_tenths())
}

/// Whether the confidence `anomalous / total`, as a double, reaches 0.4.
pub open spec fn ratio_reaches_medium(a: u64, t: u64) -> bool {
    !double_lt(quotient_double(a, t), four_tenths())
}

/// The confidence band of a process.
pub open spec fn band_of(v: LeakStatsView) -> ConfidenceBand {
    if !confidence_shown(v) {
        ConfidenceBand::Unknown
    } else if ratio_reaches_high(v.anomalous_entries, v.total_entries) {
        ConfidenceBand::High
    } else if ratio_reaches_medium(v.anomalous_entries, v.total_entries) {
        ConfidenceBand::Medium
    } else {
        ConfidenceBand::Low
    }
}

/// The triage severity of a process.
pub open spec fn severity_of(v: LeakStatsView) -> TriageSeverity {
    match band_of(v) {
        ConfidenceBand::High => TriageSeverity::High,
        ConfidenceBand::Medium => TriageSeverity::Medium,
        _ => TriageSeverity::Low,
    }
}

pub open spec fn severity_rank(s: TriageSeverity) -> int {
    match s {
        TriageSeverity::Low => 0,
        TriageSeverity::Medium => 1,
        TriageSeverity::High => 2,
    }
}

/// The shown confidence of a process, the double `anomalous / total`; a
/// hidden confidence counts as zero.
pub open spec fn shown_confidence(v: LeakStatsView) -> (nat, int) {
    if confidence_shown(v) {
        quotient_double(v.anomalous_entries, v.total_entries)
    } else {
        (0, 0)
    }
}

/// The ordering of detected leaks: pinned first, then by severity, shown
/// confidence (as the doubles compare), anomalous entries and total
/// entries, all descending, then by pid ascending.
pub open spec fn leak_before(a: LeakStatsView, b: LeakStatsView) -> bool {
    let sa = severity_rank(severity_of(a));
    let sb = severity_rank(severity_of(b));
    let ca = shown_confidence(a);
    let cb = shown_confidence(b);
    (a.is_pinned && !b.is_pinned) || (a.is_pinned == b.is_pinned && (sa > sb || (sa == sb && (
    double_lt(cb, ca) || (same_double(ca, cb) && (a.anomalous_entries > b.anomalous_entries || (
    a.anomalous_entries == b.anomalous_entries && (a.total_entries > b.total_entries || (
    a.total_entries == b.total_entries && a.pid < b.pid)))))))))
}

/// The ordering of detected leaks is transitive.
pub proof fn lemma_leak_before_transitive(a: LeakStatsView, b: LeakStatsView, c: LeakStatsView)
    requires
        leak_before(a, b),
        leak_before(b, c),
    ensures
        leak_before(a, c),
{
    lemma_double_order(shown_confidence(a), shown_confidence(b), shown_confidence(c));
    lemma_double_order(shown_confidence(c), shown_confidence(b), shown_confidence(a));
    lemma_double_order(shown_confidence(b), shown_confidence(a), shown_confidence(c));
}

/// Of two processes with distinct pids, exactly one comes first.
pub proof fn lemma_leak_before_total(a: LeakStatsView, b: LeakStatsView)
    requires
        a.pid != b.pid,
    ensures
        leak_before(a, b) != leak_before(b, a),
{
    lemma_double_order(shown_confidence(a), shown_confidence(b), shown_confidence(a));
}

/// What comes first among detected leaks, stated over their fields: a
/// pinned leak before an unpinned one; then the more severe; then the
/// larger shown confidence (compared as the numbers the doubles are); then
/// more anomalous entries, then more counted entries, then the smaller pid.
pub proof fn lemma_leak_order_by_fields(a: LeakStatsView, b: LeakStatsView)
    ensures
        a.is_pinned && !b.is_pinned ==> leak_before(a, b) && !leak_before(b, a),
        a.is_pinned == b.is_pinned && severity_rank(severity_of(a)) > severity_rank(severity_of(b))
            ==> leak_before(a, b) && !leak_before(b, a),
        ({
            let s = common_scale(shown_confidence(b), shown_confidence(a));
            a.is_pinned == b.is_pinned && severity_of(a) == severity_of(b) && s.0 < s.1
                ==> leak_before(a, b) && !leak_before(b, a)
        }),
        ({
            let s = common_scale(shown_confidence(b), shown_confidence(a));
            a.is_pinned == b.is_pinned && severity_of(a) == severity_of(b) && s.0 == s.1 && (
            a.anomalous_entries > b.anomalous_entries || (a.anomalous_entries == b.anomalous_entries
                && a.total_entries > b.total_entries) || (a.anomalous_entries == b.anomalous_entries
                && a.total_entries == b.total_entries && a.pid < b.pid)) ==> leak_before(a, b)
                && !leak_before(b, a)
        }),
{
    let (ca, cb) = (shown_confidence(a), shown_confidence(b));
    if confidence_shown(a) {
        lemma_quotient_double_normal(a.anomalous_entries, a.total_entries);
    }
    if confidence_shown(b) {
        lemma_quotient_double_normal(b.anomalous_entries, b.total_entries);
    }
    lemma_double_lt_is_value_order(cb, ca);
    lemma_double_order(ca, cb, ca);
}


/// The counters of a process's evidence are nested: anomalous samples are
/// among the counted ones, which are among the observed ones.
pub open spec fn counters_nested(v: LeakStatsView) -> bool {
    v.anomalous_entries <= v.total_entries <= v.observed_entries
}

/// The evidence of a newly seen process has nested counters, and every
/// sample keeps them nested.
pub proof fn lemma_counters_stay_nested(
    v: LeakStatsView,
    name: Seq<char>,
    cycle: u64,
    is_anomalous: bool,
    cmd_hash: u64,
    at: i64,
)
    requires
        counters_nested(v),
    ensures
        counters_nested(stats_new(v.pid, name, cycle)),
        counters_nested(sample_update(v, name, cycle, is_anomalous, cmd_hash, at)),
{
}

/// A sample that is not anomalous ends the anomalous streak and adds no
/// anomalous evidence.
pub proof fn lemma_quiet_sample_resets_streak(
    v: LeakStatsView,
    name: Seq<char>,
    cycle: u64,
    cmd_hash: u64,
    at: i64,
)
    ensures
        sample_update(v, name, cycle, false, cmd_hash, at).anomalous_streak == 0,
        sample_update(v, name, cycle, false, cmd_hash, at).anomalous_entries
            == v.anomalous_entries,
        sample_update(v, name, cycle, false, cmd_hash, at).last_detected_at == v.last_detected_at,
{
}

/// Evidence counts only after the warm-up: while a process has been
/// observed at most `WARMUP_POINTS` times, its counted and anomalous
/// samples stay as they were.
pub proof fn lemma_warmup_counts_nothing(
    v: LeakStatsView,
    name: Seq<char>,
    cycle: u64,
    is_anomalous: bool,
    cmd_hash: u64,
    at: i64,
)
    requires
        !warmup_complete(sample_update(v, name, cycle, is_anomalous, cmd_hash, at)),
    ensures
        sample_update(v, name, cycle, is_anomalous, cmd_hash, at).total_entries == v.total_entries,
        sample_update(v, name, cycle, is_anomalous, cmd_hash, at).anomalous_entries
            == v.anomalous_entries,
{
}

/// The time a process was first detected never changes once set.
pub proof fn lemma_first_detection_is_kept(
    v: LeakStatsView,
    name: Seq<char>,
    cycle: u64,
    is_anomalous: bool,
    cmd_hash: u64,
    at: i64,
)
    requires
        v.first_detected_at is Some,
    ensures
        sample_update(v, name, cycle, is_anomalous, cmd_hash, at).first_detected_at
            == v.first_detected_at,
{
}

/// The fifth consecutive anomalous sample after the warm-up is detected:
/// it is counted as anomalous evidence and dated.
pub proof fn lemma_sustained_anomaly_is_detected(
    v: LeakStatsView,
    name: Seq<char>,
    cycle: u64,
    cmd_hash: u64,
    at: i64,
)
    requires
        v.anomalous_streak + 1 >= ANOMALY_SUSTAINED_THRESHOLD,
        v.anomalous_streak < u32::MAX,
        v.observed_entries >= WARMUP_POINTS,
        v.observed_entries < u64::MAX,
        v.anomalous_entries < u64::MAX,
    ensures
        sample_update(v, name, cycle, true, cmd_hash, at).anomalous_entries
            == v.anomalous_entries + 1,
        sample_update(v, name, cycle, true, cmd_hash, at).last_detected_at == Some(at),
{
}

// ---------------------------------------------------------------------------
// Executable per-process operations
// ---------------------------------------------------------------------------

impl LeakConfidenceStats {
    /// The evidence of a process first seen in cycle `first_seen_cycle`.
    pub fn new(pid: Pid, name: String, first_seen_cycle: u64) -> (r: Self)
        ensures
            r@ == stats_new(pid, name@, first_seen_cycle),
    {
        LeakConfidenceStats {
            pid,
            name,
            identity_key: String::new(),
            total_entries: 0,
            anomalous_entries: 0,
            observed_entries: 0,
            is_active: false,
            anomalous_streak: 0,
            last_seen_anomalous: false,
            first_seen_cycle,
            last_seen_cycle: first_seen_cycle,
            first_detected_at: None,
            last_detected_at: None,
            is_pinned: false,
            ignored_for_session: false,
            ignored_persistent: false,
            recent_anomaly_reason: false,
        }
    }

    /// A copy of the evidence.
    pub fn copy(&self) -> (r: Self)
        ensures
            r@ == self@,
    {
        LeakConfidenceStats {
            pid: self.pid,
            name: self.name.clone(),
            identity_key: self.identity_key.clone(),
            total_entries: self.total_entries,
            anomalous_entries: self.anomalous_entries,
            observed_entries: self.observed_entries,
            is_active: self.is_active,
            anomalous_streak: self.anomalous_streak,
            last_seen_anomalous: self.last_seen_anomalous,
            first_seen_cycle: self.first_seen_cycle,
            last_seen_cycle: self.last_seen_cycle,
            first_detected_at: self.first_detected_at,
            last_detected_at: self.last_detected_at,
            is_pinned: self.is_pinned,
            ignored_for_session: self.ignored_for_session,
            ignored_persistent: self.ignored_persistent,
            recent_anomaly_reason: self.recent_anomaly_reason,
        }
    }

    pub fn is_warmup_complete(&self) -> (r: bool)
        ensures
            r == warmup_complete(self@),
    {
        self.observed_entries > WARMUP_POINTS
    }

    /// Whether the confidence is shown, that is, enough evidence was counted.
    pub fn is_confidence_visible(&self) -> (r: bool)
        ensures
            r == confidence_shown(self@),
    {
        self.total_entries >= MIN_EVIDENCE_POINTS
    }

    pub fn confidence_band(&self) -> (r: ConfidenceBand)
        ensures
            r == band_of(self@),
    {
        if !self.is_confidence_visible() {
            return ConfidenceBand::Unknown;
        }
        let c = quotient_double_of(self.anomalous_entries, self.total_entries);
        if !double_less(c, (6305039478318694u128, -53i32)) {
            ConfidenceBand::High
        } else if !double_less(c, (7205759403792794u128, -54i32)) {
            ConfidenceBand::Medium
        } else {
            ConfidenceBand::Low
        }
    }

    pub fn triage_severity(&self) -> (r: TriageSeverity)
        ensures
            r == severity_of(self@),
    {
        match self.confidence_band() {
            ConfidenceBand::High => TriageSeverity::High,
            ConfidenceBand::Medium => TriageSeverity::Medium,
            _ => TriageSeverity::Low,
        }
    }

    /// Applies one sample of the process to its evidence.
    pub fn apply_sample(
        &mut self,
        name: String,
        cycle: u64,
        is_anomalous: bool,
        cmd_hash: u64,
        at: i64,
    )
        ensures
            final(self)@ == sample_update(old(self)@, name@, cycle, is_anomalous, cmd_hash, at),
    {
        self.name = name;
        self.last_seen_cycle = cycle;
        let mut key: Vec<char> = Vec::new();
        append_chars(&mut key, "pid:");
        let d1 = dec_chars(self.pid as u64);
        append_vec(&mut key, &d1);
        append_chars(&mut key, "|first:");
        let d2 = dec_chars(self.first_seen_cycle);
        append_vec(&mut key, &d2);
        append_chars(&mut key, "|cmd:");
        let d3 = dec_chars(cmd_hash);
        append_vec(&mut key, &d3);
        self.identity_key = string_of(&key);
        self.observed_entries = self.observed_entries.saturating_add(1);
        if is_anomalous {
            self.anomalous_streak = self.anomalous_streak.saturating_add(1);
        } else {
            self.anomalous_streak = 0;
        }
        let sustained = is_anomalous && self.anomalous_streak >= ANOMALY_SUSTAINED_THRESHOLD;
        if self.is_warmup_complete() {
            self.total_entries = self.total_entries.saturating_add(1);
            if sustained {
                self.anomalous_entries = self.anomalous_entries.saturating_add(1);
            }
        }
        if sustained {
            if self.first_detected_at.is_none() {
                self.first_detected_at = Some(at);
            }
            self.last_detected_at = Some(at);
        }
        self.recent_anomaly_reason = self.last_seen_anomalous;
        self.is_active = true;
        self.last_seen_anomalous = is_anomalous;
    }
}

/// Whether `a` comes before `b` among detected leaks.
pub fn leak_precedes(a: &LeakConfidenceStats, b: &LeakConfidenceStats) -> (r: bool)
    ensures
        r == leak_before(a@, b@),
{
    if a.is_pinned != b.is_pinned {
        return a.is_pinned;
    }
    let sa = severity_num(a.triage_severity());
    let sb = severity_num(b.triage_severity());
    if sa != sb {
        return sa > sb;
    }
    let ca = if a.is_confidence_visible() {
        quotient_double_of(a.anomalous_entries, a.total_entries)
    } else {
        (0u128, 0i32)
    };
    let cb = if b.is_confidence_visible() {
        quotient_double_of(b.anomalous_entries, b.total_entries)
    } else {
        (0u128, 0i32)
    };
    if !same_double_of(ca, cb) {
        return double_less(cb, ca);
    }
    if a.anomalous_entries != b.anomalous_entries {
        return a.anomalous_entries > b.anomalous_entries;
    }
    if a.total_entries != b.total_entries {
        return a.total_entries > b.total_entries;
    }
    a.pid < b.pid
}

fn severity_num(s: TriageSeverity) -> (r: u8)
    ensures
        r as int == severity_rank(s),
{
    match s {
        TriageSeverity::Low => 0,
        TriageSeverity::Medium => 1,
        TriageSeverity::High => 2,
    }
}

// ---------------------------------------------------------------------------
// Sampling cycles
// ---------------------------------------------------------------------------

/// The evidence of every process, by pid.
pub open spec fn stats_views(m: Map<Pid, LeakConfidenceStats>) -> Map<Pid, LeakStatsView> {
    m.map_values(|s: LeakConfidenceStats| s@)
}

/// The evidence of a process that was not seen in the current cycle yet.
pub open spec fn deactivated(v: LeakStatsView) -> LeakStatsView {
    LeakStatsView { is_active: false, ..v }
}

/// Whether the snapshot marks `pid` anomalous.
pub open spec fn anomalous_in(m: Map<Pid, bool>, pid: Pid) -> bool {
    m.contains_key(pid) && m[pid]
}

/// The hash of the command line of `pid`, or of the empty text when the
/// snapshot has none.
pub open spec fn cmd_hash_in(m: Map<Pid, String>, pid: Pid) -> u64 {
    if m.contains_key(pid) {
        fnv1a(vstd::utf8::encode_utf8(m[pid]@))
    } else {
        fnv1a(Seq::empty())
    }
}

/// What a snapshot says beyond its list of processes.
pub struct SnapshotContext {
    pub cycle: u64,
    pub anomaly: Map<Pid, bool>,
    pub cmdlines: Map<Pid, String>,
    pub at: i64,
    pub own_pid: Pid,
}

/// The evidence after the sample of one process; the monitor's own process is skipped.
pub open spec fn observe(
    m: Map<Pid, LeakStatsView>,
    pid: Pid,
    name: Seq<char>,
    ctx: SnapshotContext,
) -> Map<Pid, LeakStatsView> {
    if pid == ctx.own_pid {
        m
    } else {
        let base = if m.contains_key(pid) {
            m[pid]
        } else {
            stats_new(pid, name, ctx.cycle)
        };
        m.insert(
            pid,
            sample_update(
                base,
                name,
                ctx.cycle,
                anomalous_in(ctx.anomaly, pid),
                cmd_hash_in(ctx.cmdlines, pid),
                ctx.at,
            ),
        )
    }
}

/// The evidence after the samples of a snapshot, taken in order.
pub open spec fn observe_all(
    m: Map<Pid, LeakStatsView>,
    samples: Seq<(Pid, Seq<char>)>,
    ctx: SnapshotContext,
) -> Map<Pid, LeakStatsView>
    decreases samples.len(),
{
    if samples.len() == 0 {
        m
    } else {
        observe(
            observe_all(m, samples.drop_last(), ctx),
            samples.last().0,
            samples.last().1,
            ctx,
        )
    }
}

pub open spec fn samples_view(s: Seq<(Pid, String)>) -> Seq<(Pid, Seq<char>)> {
    s.map_values(|e: (Pid, String)| (e.0, e.1@))
}

/// Cycles since a process was last seen.
pub open spec fn idle_cycles(cycle: u64, last_seen: u64) -> int {
    if cycle >= last_seen {
        cycle - last_seen
    } else {
        0
    }
}

/// Whether the evidence of a process is kept after a cycle: it was seen in
/// the cycle, or it has been absent for fewer cycles than its limit.
pub open spec fn kept(v: LeakStatsView, cycle: u64) -> bool {
    v.is_active || idle_cycles(cycle, v.last_seen_cycle) < (if v.anomalous_entries > 0 {
        STALE_FLAGGED_CYCLES
    } else {
        STALE_CLEAN_CYCLES
    })
}

/// Whether a process is listed among detected leaks.
pub open spec fn is_detected(v: LeakStatsView) -> bool {
    v.anomalous_entries > 0 && !v.ignored_for_session && !v.ignored_persistent
}

/// Every element comes before every later one.
pub open spec fn sorted_leaks(d: Seq<LeakStatsView>) -> bool {
    forall|i: int, j: int| 0 <= i < j < d.len() ==> leak_before(d[i], d[j])
}

pub open spec fn views_of(s: Seq<LeakConfidenceStats>) -> Seq<LeakStatsView> {
    s.map_values(|x: LeakConfidenceStats| x@)
}

/// The evidence after a snapshot, before stale processes are dropped.
pub open spec fn processed(
    old: Map<Pid, LeakStatsView>,
    samples: Seq<(Pid, Seq<char>)>,
    ctx: SnapshotContext,
) -> Map<Pid, LeakStatsView> {
    observe_all(old.map_values(|v: LeakStatsView| deactivated(v)), samples, ctx)
}

/// The processes whose evidence is kept after a cycle.
pub open spec fn kept_pids(m: Map<Pid, LeakStatsView>, cycle: u64) -> Set<Pid> {
    Set::new(|p: Pid| m.contains_key(p) && kept(m[p], cycle))
}

/// `d` lists exactly the detected processes of `m`, in leak order.
pub open spec fn lists_detected(d: Seq<LeakStatsView>, m: Map<Pid, LeakStatsView>) -> bool {
    &&& sorted_leaks(d)
    &&& forall|i: int| #![trigger d[i]]
        0 <= i < d.len() ==> m.contains_key(d[i].pid) && m[d[i].pid] == d[i] && is_detected(d[i])
    &&& forall|p: Pid| #![trigger m[p]]
        m.contains_key(p) && is_detected(m[p]) ==> exists|i: int|
            0 <= i < d.len() && #[trigger] d[i].pid == p
}

/// Inserts `x` into a list in leak order, keeping the order.
fn insert_sorted(v: &mut Vec<LeakConfidenceStats>, x: LeakConfidenceStats) -> (k: usize)
    requires
        sorted_leaks(views_of(old(v)@)),
        forall|i: int| 0 <= i < old(v)@.len() ==> old(v)@[i].pid != x.pid,
    ensures
        k <= old(v)@.len(),
        views_of(final(v)@) == views_of(old(v)@).insert(k as int, x@),
        sorted_leaks(views_of(final(v)@)),
{
    let ghost old_v = views_of(v@);
    let mut k: usize = 0;
    while k < v.len() && !leak_precedes(&x, &v[k])
        invariant
            k <= v.len(),
            views_of(v@) == old_v,
            forall|i: int| 0 <= i < k ==> !leak_before(x@, old_v[i]),
        decreases v.len() - k,
    {
        k = k + 1;
    }
    let ghost xv = x@;
    v.insert(k, x);
    proof {
        let nv = views_of(v@);
        assert(nv =~= old_v.insert(k as int, xv));
        assert forall|i: int, j: int| 0 <= i < j < nv.len() implies leak_before(nv[i], nv[j]) by {
            if j < k {
                assert(nv[i] == old_v[i] && nv[j] == old_v[j]);
            } else if i < k && j == k {
                assert(nv[i] == old_v[i]);
                assert(old_v[i].pid != xv.pid);
                lemma_leak_before_total(old_v[i], xv);
            } else if i < k {
                assert(nv[i] == old_v[i] && nv[j] == old_v[j - 1]);
            } else if i == k {
                assert(nv[j] == old_v[j - 1]);
                assert(k < old_v.len());
                assert(leak_before(xv, old_v[k as int]));
                if j - 1 > k {
                    lemma_leak_before_transitive(xv, old_v[k as int], old_v[j - 1]);
                }
            } else {
                assert(nv[i] == old_v[i - 1] && nv[j] == old_v[j - 1]);
            }
        }
    }
    k
}

/// Evidence stored under the pid of the process it describes.
pub open spec fn keyed_by_pid(m: Map<Pid, LeakConfidenceStats>) -> bool {
    forall|p: Pid| #[trigger] m.contains_key(p) ==> m[p].pid == p
}

/// The same evidence with every process marked as not seen in the current cycle.
fn deactivate_all(taken: PidMap<LeakConfidenceStats>) -> (r: PidMap<LeakConfidenceStats>)
    requires
        taken.wf(),
        keyed_by_pid(taken@),
    ensures
        r.wf(),
        keyed_by_pid(r@),
        stats_views(r@) == stats_views(taken@).map_values(|v: LeakStatsView| deactivated(v)),
{
    proof {
        taken.lemma_view();
    }
    let ghost m0 = taken@;
    let entries = taken.into_entries();
    let mut fresh: Vec<(Pid, LeakConfidenceStats)> = Vec::new();
    let mut i: usize = 0;
    while i < entries.len()
        invariant
            i <= entries.len(),
            fresh@.len() == i,
            forall|j: int| #![trigger fresh@[j]] 0 <= j < i ==> fresh@[j].0 == entries@[j].0
                && fresh@[j].1@ == deactivated(entries@[j].1@),
        decreases entries.len() - i,
    {
        let mut c = entries[i].1.copy();
        c.is_active = false;
        fresh.push((entries[i].0, c));
        assert(fresh@[i as int].1@ == deactivated(entries@[i as int].1@));
        i = i + 1;
    }
    proof {
        lemma_entries_map_values(
            entries@,
            fresh@,
            |s: LeakConfidenceStats| deactivated(s@),
            |s: LeakConfidenceStats| s@,
        );
        lemma_entries_map(entries@);
        lemma_entries_map(fresh@);
        assert(stats_views(entries_map(fresh@)) =~= stats_views(m0).map_values(
            |v: LeakStatsView| deactivated(v),
        ));
        assert forall|p: Pid| #[trigger]
            entries_map(fresh@).contains_key(p) implies entries_map(fresh@)[p].pid == p by {
            let j = choose|j: int| 0 <= j < fresh@.len() && fresh@[j].0 == p;
            assert(fresh@[j].0 == entries@[j].0 && fresh@[j].1@ == deactivated(entries@[j].1@));
            assert(entries_map(fresh@).contains_key(fresh@[j].0));
            assert(entries_map(entries@).contains_key(entries@[j].0));
            assert(entries_map(entries@)[entries@[j].0] == entries@[j].1);
            assert(m0.contains_key(entries@[j].0));
            assert(entries@[j].1.pid == entries@[j].0);
        }
    }
    PidMap::from_entries(fresh)
}

/// Applies the samples of a snapshot, in order, to the evidence.
fn observe_samples(
    stats: &mut PidMap<LeakConfidenceStats>,
    samples: &Vec<(Pid, String)>,
    anomaly_by_pid: &HashMap<Pid, bool>,
    cmdline_by_pid: &HashMap<Pid, String>,
    cycle: u64,
    collected_at_ms: i64,
    own_pid: Pid,
)
    requires
        old(stats).wf(),
        keyed_by_pid(old(stats)@),
    ensures
        final(stats).wf(),
        keyed_by_pid(final(stats)@),
        stats_views(final(stats)@) == observe_all(
            stats_views(old(stats)@),
            samples_view(samples@),
            SnapshotContext {
                cycle,
                anomaly: anomaly_by_pid@,
                cmdlines: cmdline_by_pid@,
                at: collected_at_ms,
                own_pid,
            },
        ),
{
    let ghost ctx = SnapshotContext {
        cycle,
        anomaly: anomaly_by_pid@,
        cmdlines: cmdline_by_pid@,
        at: collected_at_ms,
        own_pid,
    };
    let ghost start = stats_views(stats@);
    let mut s: usize = 0;
    while s < samples.len()
        invariant
            s <= samples.len(),
            stats.wf(),
            keyed_by_pid(stats@),
            ctx == (SnapshotContext {
                cycle,
                anomaly: anomaly_by_pid@,
                cmdlines: cmdline_by_pid@,
                at: collected_at_ms,
                own_pid,
            }),
            stats_views(stats@) == observe_all(start, samples_view(samples@).take(s as int), ctx),
        decreases samples.len() - s,
    {
        let pid = samples[s].0;
        proof {
            assert(samples_view(samples@).take(s + 1).drop_last() =~= samples_view(samples@).take(
                s as int,
            ));
            assert(samples_view(samples@).take(s + 1).last() == (pid, samples@[s as int].1@));
        }
        if pid != own_pid {
            let is_anomalous = match anomaly_by_pid.get(&pid) {
                Some(b) => *b,
                None => false,
            };
            let cmd_hash = match cmdline_by_pid.get(&pid) {
                Some(c) => simple_hash(c.as_str()),
                None => {
                    let empty = String::new();
                    simple_hash(empty.as_str())
                },
            };
            proof {
                assert(is_anomalous == anomalous_in(anomaly_by_pid@, pid));
                assert(cmd_hash == cmd_hash_in(cmdline_by_pid@, pid));
            }
            let ghost before = stats_views(stats@);
            let mut entry = match stats.remove(pid) {
                Some(e) => e,
                None => LeakConfidenceStats::new(pid, samples[s].1.clone(), cycle),
            };
            entry.apply_sample(samples[s].1.clone(), cycle, is_anomalous, cmd_hash, collected_at_ms);
            let ghost ev = entry@;
            stats.insert(pid, entry);
            proof {
                assert(stats_views(stats@) =~= before.insert(pid, ev));
            }
        }
        s = s + 1;
    }
    proof {
        assert(samples_view(samples@).take(samples.len() as int) =~= samples_view(samples@));
    }
}

/// The detected leaks of the evidence, in leak order.
fn list_detected(stats: &PidMap<LeakConfidenceStats>) -> (d: Vec<LeakConfidenceStats>)
    requires
        stats.wf(),
        keyed_by_pid(stats@),
    ensures
        lists_detected(views_of(d@), stats_views(stats@)),
{
    let all = Ghost(stats_views(stats@));
    let mut detected: Vec<LeakConfidenceStats> = Vec::new();
    let n = stats.len();
    proof {
        stats.lemma_view();
    }
    let mut e: usize = 0;
    while e < n
        invariant
            e <= n == stats.entry_seq().len(),
            stats.wf(),
            keyed_by_pid(stats@),
            sorted_leaks(views_of(detected@)),
            forall|i: int| #![trigger detected@[i]]
                0 <= i < detected@.len() ==> is_detected(detected@[i]@) && exists|j: int|
                    0 <= j < e && stats.entry_seq()[j].1@ == detected@[i]@,
            forall|j: int| #![trigger stats.entry_seq()[j]]
                0 <= j < e && is_detected(stats.entry_seq()[j].1@) ==> exists|i: int|
                    0 <= i < detected@.len() && detected@[i].pid == stats.entry_seq()[j].0,
        decreases n - e,
    {
        proof {
            stats.lemma_view();
        }
        let (p, st) = stats.entry_at(e);
        if st.anomalous_entries > 0 && !st.ignored_for_session && !st.ignored_persistent {
            let c = st.copy();
            proof {
                assert(stats@.contains_key(stats.entry_seq()[e as int].0));
                assert(stats@.contains_key(p) && stats@[p] == *st);
                assert(st.pid == p);
                assert forall|i: int| 0 <= i < detected@.len() implies detected@[i].pid
                    != c.pid by {
                    let j = choose|j: int|
                        0 <= j < e && stats.entry_seq()[j].1@ == detected@[i]@;
                    let q = stats.entry_seq()[j].0;
                    assert(stats@.contains_key(q));
                    assert(stats@[q] == stats.entry_seq()[j].1);
                    assert(q != p);
                }
            }
            let ghost old_d = detected@;
            let k = insert_sorted(&mut detected, c);
            proof {
                lemma_detected_step(old_d, detected@, k as int, stats.entry_seq(), e as int);
            }
        }
        e = e + 1;
    }
    proof {
        stats.lemma_view();
        let d = views_of(detected@);
        assert forall|i: int| #![trigger d[i]]
            0 <= i < d.len() implies all@.contains_key(d[i].pid) && all@[d[i].pid] == d[i]
            && is_detected(d[i]) by {
            assert(d[i] == detected@[i]@);
            let j = choose|j: int| 0 <= j < n && stats.entry_seq()[j].1@ == detected@[i]@;
            let q = stats.entry_seq()[j].0;
            assert(stats@.contains_key(stats.entry_seq()[j].0));
            assert(stats@.contains_key(q) && stats@[q] == stats.entry_seq()[j].1);
            assert(stats@[q].pid == q);
        }
        assert forall|p: Pid| #![trigger all@[p]]
            all@.contains_key(p) && is_detected(all@[p]) implies exists|i: int|
            0 <= i < d.len() && #[trigger] d[i].pid == p by {
            let j = choose|j: int| 0 <= j < n && stats.entry_seq()[j].0 == p;
            assert(stats@[p] == stats.entry_seq()[j].1);
            let i = choose|i: int|
                0 <= i < detected@.len() && detected@[i].pid == stats.entry_seq()[j].0;
            assert(d[i] == detected@[i]@);
        }
    }
    detected
}

/// One step of listing detected leaks: inserting the entry at position `e`
/// keeps the list in correspondence with the entries up to `e`.
#[verifier::rlimit(40)]
proof fn lemma_detected_step(
    old_d: Seq<LeakConfidenceStats>,
    d: Seq<LeakConfidenceStats>,
    k: int,
    entries: Seq<(Pid, LeakConfidenceStats)>,
    e: int,
)
    requires
        0 <= e < entries.len(),
        0 <= k <= old_d.len(),
        views_of(d) == views_of(old_d).insert(k, entries[e].1@),
        is_detected(entries[e].1@),
        entries[e].1.pid == entries[e].0,
        forall|i: int| #![trigger old_d[i]]
            0 <= i < old_d.len() ==> is_detected(old_d[i]@) && exists|j: int|
                0 <= j < e && entries[j].1@ == old_d[i]@,
        forall|j: int| #![trigger entries[j]]
            0 <= j < e && is_detected(entries[j].1@) ==> exists|i: int|
                0 <= i < old_d.len() && old_d[i].pid == entries[j].0,
    ensures
        forall|i: int| #![trigger d[i]]
            0 <= i < d.len() ==> is_detected(d[i]@) && exists|j: int|
                0 <= j < e + 1 && entries[j].1@ == d[i]@,
        forall|j: int| #![trigger entries[j]]
            0 <= j < e + 1 && is_detected(entries[j].1@) ==> exists|i: int|
                0 <= i < d.len() && d[i].pid == entries[j].0,
{
    assert(d.len() == old_d.len() + 1) by {
        assert(views_of(d).len() == d.len());
    }
    assert forall|i: int| 0 <= i < k implies #[trigger] d[i]@ == old_d[i]@ by {
        assert(views_of(d)[i] == d[i]@);
        assert(views_of(old_d)[i] == old_d[i]@);
    }
    assert forall|i: int| k < i < d.len() implies #[trigger] d[i]@ == old_d[i - 1]@ by {
        assert(views_of(d)[i] == d[i]@);
        assert(views_of(old_d)[i - 1] == old_d[i - 1]@);
    }
    assert(d[k]@ == entries[e].1@) by {
        assert(views_of(d)[k] == d[k]@);
    }
    assert forall|i: int| #![trigger d[i]] 0 <= i < d.len() implies is_detected(d[i]@) && exists|
        j: int,
    | 0 <= j < e + 1 && entries[j].1@ == d[i]@ by {
        assert(views_of(d)[i] == d[i]@);
        if i < k {
            assert(views_of(old_d)[i] == old_d[i]@);
            let j = choose|j: int| 0 <= j < e && entries[j].1@ == old_d[i]@;
            assert(entries[j].1@ == d[i]@);
        } else if i == k {
            assert(entries[e].1@ == d[i]@);
        } else {
            assert(views_of(old_d)[i - 1] == old_d[i - 1]@);
            let j = choose|j: int| 0 <= j < e && entries[j].1@ == old_d[i - 1]@;
            assert(entries[j].1@ == d[i]@);
        }
    }
    assert forall|j: int| #![trigger entries[j]]
        0 <= j < e + 1 && is_detected(entries[j].1@) implies exists|i: int|
        0 <= i < d.len() && d[i].pid == entries[j].0 by {
        if j == e {
            assert(views_of(d)[k] == d[k]@);
            assert(d[k].pid == entries[e].0);
        } else {
            let i0 = choose|i: int| 0 <= i < old_d.len() && old_d[i].pid == entries[j].0;
            let i1 = if i0 < k {
                i0
            } else {
                i0 + 1
            };
            assert(views_of(old_d)[i0] == old_d[i0]@);
            assert(views_of(d)[i1] == d[i1]@);
            assert(d[i1].pid == entries[j].0);
        }
    }
}

/// The evidence that is kept after cycle `cycle`.
fn retain_kept(taken: PidMap<LeakConfidenceStats>, cycle: u64) -> (r: PidMap<
    LeakConfidenceStats,
>)
    requires
        taken.wf(),
        keyed_by_pid(taken@),
    ensures
        r.wf(),
        keyed_by_pid(r@),
        stats_views(r@) == stats_views(taken@).restrict(kept_pids(stats_views(taken@), cycle)),
{
    proof {
        taken.lemma_view();
    }
    let ghost all = stats_views(taken@);
    let all_entries = taken.into_entries();
    proof {
        lemma_entries_map(all_entries@);
    }
    let mut kept_entries: Vec<(Pid, LeakConfidenceStats)> = Vec::new();
    let mut i: usize = 0;
    while i < all_entries.len()
        invariant
            i <= all_entries.len(),
            unique_keys(all_entries@),
            unique_keys(kept_entries@),
            forall|j: int| #![trigger kept_entries@[j]]
                0 <= j < kept_entries@.len() ==> exists|a: int| #![trigger all_entries@[a]]
                    0 <= a < i && all_entries@[a].0 == kept_entries@[j].0 && all_entries@[a].1@
                        == kept_entries@[j].1@ && all_entries@[a].1.pid == kept_entries@[j].1.pid,
            forall|a: int| #![trigger all_entries@[a]]
                0 <= a < i ==> (kept(all_entries@[a].1@, cycle) <==> exists|j: int|
                    #![trigger kept_entries@[j]]
                    0 <= j < kept_entries@.len() && kept_entries@[j].0 == all_entries@[a].0),
            forall|j: int|
                0 <= j < kept_entries@.len() ==> kept(#[trigger] kept_entries@[j].1@, cycle),
        decreases all_entries.len() - i,
    {
        let st = &all_entries[i].1;
        let idle = cycle.saturating_sub(st.last_seen_cycle);
        let limit = if st.anomalous_entries > 0 {
            STALE_FLAGGED_CYCLES
        } else {
            STALE_CLEAN_CYCLES
        };
        let keep = st.is_active || idle < limit;
        assert(keep == kept(st@, cycle));
        let ghost kv = kept_entries@;
        if keep {
            proof {
                assert forall|j: int| 0 <= j < kv.len() implies kv[j].0 != all_entries@[i as int].0 by {
                    let a = choose|a: int| #![trigger all_entries@[a]]
                        0 <= a < i && all_entries@[a].0 == kv[j].0 && all_entries@[a].1@
                            == kv[j].1@ && all_entries@[a].1.pid == kv[j].1.pid;
                    assert(a != i);
                }
            }
            kept_entries.push((all_entries[i].0, all_entries[i].1.copy()));
            proof {
                assert(unique_keys(kept_entries@)) by {
                    assert forall|a: int, b: int|
                        0 <= a < kept_entries@.len() && 0 <= b < kept_entries@.len() && a
                            != b implies kept_entries@[a].0 != kept_entries@[b].0 by {
                        if a < kv.len() && b < kv.len() {
                            assert(kept_entries@[a] == kv[a] && kept_entries@[b] == kv[b]);
                        }
                    }
                }
            }
        }
        proof {
            assert forall|j: int| #![trigger kept_entries@[j]]
                0 <= j < kept_entries@.len() implies exists|a: int| #![trigger all_entries@[a]]
                0 <= a < i + 1 && all_entries@[a].0 == kept_entries@[j].0 && all_entries@[a].1@
                    == kept_entries@[j].1@ && all_entries@[a].1.pid == kept_entries@[j].1.pid by {
                if j < kv.len() {
                    assert(kept_entries@[j] == kv[j]);
                } else {
                    assert(all_entries@[i as int].0 == kept_entries@[j].0);
                }
            }
            assert forall|a: int| #![trigger all_entries@[a]]
                0 <= a < i + 1 implies (kept(all_entries@[a].1@, cycle) <==> exists|j: int|
                #![trigger kept_entries@[j]]
                0 <= j < kept_entries@.len() && kept_entries@[j].0 == all_entries@[a].0) by {
                if a == i {
                    if keep {
                        assert(kept_entries@[kv.len() as int].0 == all_entries@[a].0);
                    } else {
                        assert forall|j: int| 0 <= j < kept_entries@.len() implies kept_entries@[j].0
                            != all_entries@[a].0 by {
                            let a2 = choose|a2: int| #![trigger all_entries@[a2]]
                                0 <= a2 < i && all_entries@[a2].0 == kv[j].0 && all_entries@[a2].1@
                                    == kv[j].1@ && all_entries@[a2].1.pid == kv[j].1.pid;
                            assert(a2 != a);
                        }
                    }
                } else {
                    if exists|j: int| #![trigger kv[j]] 0 <= j < kv.len() && kv[j].0 == all_entries@[a].0 {
                        let j = choose|j: int| #![trigger kv[j]]
                            0 <= j < kv.len() && kv[j].0 == all_entries@[a].0;
                        assert(kept_entries@[j] == kv[j]);
                    }
                    if exists|j: int| #![trigger kept_entries@[j]]
                        0 <= j < kept_entries@.len() && kept_entries@[j].0 == all_entries@[a].0 {
                        let j = choose|j: int| #![trigger kept_entries@[j]]
                            0 <= j < kept_entries@.len() && kept_entries@[j].0 == all_entries@[a].0;
                        if j < kv.len() {
                            assert(kept_entries@[j] == kv[j]);
                        } else {
                            assert(all_entries@[a].0 != all_entries@[i as int].0);
                        }
                    }
                }
            }
        }
        i = i + 1;
    }
    proof {
        let keys = kept_pids(all, cycle);
        assert forall|a: int| #![trigger all_entries@[a]] 0 <= a < all_entries@.len() implies (
        keys.contains(all_entries@[a].0) <==> exists|j: int| #![trigger kept_entries@[j]]
            0 <= j < kept_entries@.len() && kept_entries@[j].0 == all_entries@[a].0) by {
            assert(entries_map(all_entries@).contains_key(all_entries@[a].0));
            assert(all[all_entries@[a].0] == all_entries@[a].1@);
        }
        assert forall|j: int| 0 <= j < kept_entries@.len() implies keys.contains(
            #[trigger] kept_entries@[j].0,
        ) by {
            let a = choose|a: int| #![trigger all_entries@[a]]
                0 <= a < all_entries@.len() && all_entries@[a].0 == kept_entries@[j].0
                    && all_entries@[a].1@ == kept_entries@[j].1@ && all_entries@[a].1.pid
                    == kept_entries@[j].1.pid;
            assert(entries_map(all_entries@).contains_key(all_entries@[a].0));
            assert(all[all_entries@[a].0] == all_entries@[a].1@);
        }
        assert forall|j: int| #![trigger kept_entries@[j]] 0 <= j < kept_entries@.len() implies exists|
            a: int,
        | #![trigger all_entries@[a]] 0 <= a < all_entries@.len() && all_entries@[a].0
            == kept_entries@[j].0 && (|s: LeakConfidenceStats| s@)(all_entries@[a].1) == (
        |s: LeakConfidenceStats| s@)(kept_entries@[j].1) by {
            let a = choose|a: int| #![trigger all_entries@[a]]
                0 <= a < all_entries@.len() && all_entries@[a].0 == kept_entries@[j].0
                    && all_entries@[a].1@ == kept_entries@[j].1@ && all_entries@[a].1.pid
                    == kept_entries@[j].1.pid;
        }
        lemma_entries_map_filter(all_entries@, kept_entries@, |s: LeakConfidenceStats| s@, keys);
        lemma_entries_map(kept_entries@);
        assert(stats_views(entries_map(kept_entries@)) =~= all.restrict(keys));
        assert forall|p: Pid| #[trigger]
            entries_map(kept_entries@).contains_key(p) implies entries_map(kept_entries@)[p].pid
            == p by {
            let j = choose|j: int| 0 <= j < kept_entries@.len() && kept_entries@[j].0 == p;
            assert(entries_map(kept_entries@).contains_key(kept_entries@[j].0));
            let a = choose|a: int| #![trigger all_entries@[a]]
                0 <= a < all_entries@.len() && all_entries@[a].0 == kept_entries@[j].0
                    && all_entries@[a].1@ == kept_entries@[j].1@ && all_entries@[a].1.pid
                    == kept_entries@[j].1.pid;
            assert(entries_map(all_entries@).contains_key(all_entries@[a].0));
        }
    }
    PidMap::from_entries(kept_entries)
}

/// `after` is `before` with one snapshot applied: the cycle advanced, the
/// evidence of each sampled process updated, the detected leaks listed in
/// leak order and stale evidence dropped.
pub open spec fn snapshot_applied(
    before: LeakTracker,
    after: LeakTracker,
    samples: Seq<(Pid, Seq<char>)>,
    anomaly: Map<Pid, bool>,
    cmdlines: Map<Pid, String>,
    collected_at_ms: i64,
    own_pid: Pid,
) -> bool {
    let ctx = SnapshotContext {
        cycle: after.sample_cycle,
        anomaly,
        cmdlines,
        at: collected_at_ms,
        own_pid,
    };
    let all = processed(stats_views(before.stats@), samples, ctx);
    &&& after.sample_cycle == sat_inc_u64(before.sample_cycle)
    &&& stats_views(after.stats@) == all.restrict(kept_pids(all, after.sample_cycle))
    &&& lists_detected(views_of(after.detected_leaks@), all)
}

/// Every process's evidence has nested counters.
pub open spec fn all_nested(m: Map<Pid, LeakStatsView>) -> bool {
    forall|p: Pid| #[trigger] m.contains_key(p) ==> counters_nested(m[p])
}

proof fn lemma_observe_all_nested(
    m: Map<Pid, LeakStatsView>,
    samples: Seq<(Pid, Seq<char>)>,
    ctx: SnapshotContext,
)
    requires
        all_nested(m),
    ensures
        all_nested(observe_all(m, samples, ctx)),
    decreases samples.len(),
{
    if samples.len() > 0 {
        lemma_observe_all_nested(m, samples.drop_last(), ctx);
        let prev = observe_all(m, samples.drop_last(), ctx);
        let pid = samples.last().0;
        let name = samples.last().1;
        if pid != ctx.own_pid {
            let base = if prev.contains_key(pid) {
                prev[pid]
            } else {
                stats_new(pid, name, ctx.cycle)
            };
            lemma_counters_stay_nested(
                base,
                name,
                ctx.cycle,
                anomalous_in(ctx.anomaly, pid),
                cmd_hash_in(ctx.cmdlines, pid),
                ctx.at,
            );
        }
    }
}

/// Applying a snapshot keeps every process's counters nested: what holds
/// of the evidence before a cycle holds after it.
pub proof fn lemma_snapshot_keeps_counters_nested(
    before: LeakTracker,
    after: LeakTracker,
    samples: Seq<(Pid, Seq<char>)>,
    anomaly: Map<Pid, bool>,
    cmdlines: Map<Pid, String>,
    collected_at_ms: i64,
    own_pid: Pid,
)
    requires
        all_nested(stats_views(before.stats@)),
        snapshot_applied(before, after, samples, anomaly, cmdlines, collected_at_ms, own_pid),
    ensures
        all_nested(stats_views(after.stats@)),
{
    let ctx = SnapshotContext {
        cycle: after.sample_cycle,
        anomaly,
        cmdlines,
        at: collected_at_ms,
        own_pid,
    };
    let start = stats_views(before.stats@).map_values(|v: LeakStatsView| deactivated(v));
    assert(all_nested(start));
    lemma_observe_all_nested(start, samples, ctx);
    let all = processed(stats_views(before.stats@), samples, ctx);
    assert(all_nested(all.restrict(kept_pids(all, after.sample_cycle))));
}

/// The evidence about every process, updated once per sampling cycle.
pub struct LeakTracker {
    pub sample_cycle: u64,
    pub stats: PidMap<LeakConfidenceStats>,
    pub detected_leaks: Vec<LeakConfidenceStats>,
}

impl LeakTracker {
    /// The map is well formed and each entry is stored under its own pid.
    pub open spec fn wf(&self) -> bool {
        &&& self.stats.wf()
        &&& keyed_by_pid(self.stats@)
    }

    pub fn new() -> (r: Self)
        ensures
            r.wf(),
            r.sample_cycle == 0,
            stats_views(r.stats@) == Map::<Pid, LeakStatsView>::empty(),
            r.detected_leaks@.len() == 0,
    {
        let r = LeakTracker { sample_cycle: 0, stats: PidMap::new(), detected_leaks: Vec::new() };
        assert(stats_views(r.stats@) =~= Map::<Pid, LeakStatsView>::empty());
        r
    }

    /// Applies the processes of one snapshot: advances the cycle, updates the
    /// evidence of each sampled process (the monitor's own process skipped),
    /// lists the detected leaks in leak order and drops stale evidence.
    pub fn apply_snapshot(
        &mut self,
        samples: &Vec<(Pid, String)>,
        anomaly_by_pid: &HashMap<Pid, bool>,
        cmdline_by_pid: &HashMap<Pid, String>,
        collected_at_ms: i64,
        own_pid: Pid,
    )
        requires
            old(self).wf(),
        ensures
            final(self).wf(),
            snapshot_applied(
                *old(self),
                *final(self),
                samples_view(samples@),
                anomaly_by_pid@,
                cmdline_by_pid@,
                collected_at_ms,
                own_pid,
            ),
    {
        self.sample_cycle = self.sample_cycle.saturating_add(1);
        let cycle = self.sample_cycle;
        let mut taken = PidMap::new();
        std::mem::swap(&mut taken, &mut self.stats);
        let mut stats = deactivate_all(taken);
        observe_samples(
            &mut stats,
            samples,
            anomaly_by_pid,
            cmdline_by_pid,
            cycle,
            collected_at_ms,
            own_pid,
        );
        self.detected_leaks = list_detected(&stats);
        self.stats = retain_kept(stats, cycle);
    }
}

} // verus!
