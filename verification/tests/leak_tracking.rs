use std::collections::{HashMap, HashSet};

use system_monitor::gui_enums::{ConfidenceBand, TriageSeverity};
use system_monitor::hashing::{hash64, mix64, str_hash64};
use system_monitor::double_ratio::quotient_double_of;
use system_monitor::leaks::{leak_precedes, simple_hash, LeakConfidenceStats, LeakTracker};

fn fed(samples: &[bool]) -> LeakConfidenceStats {
    let mut s = LeakConfidenceStats::new(5, "app".to_string(), 1);
    for (i, &a) in samples.iter().enumerate() {
        s.apply_sample("app".to_string(), 1 + i as u64, a, 77, 1_000 + i as i64);
    }
    s
}

#[test]
fn fnv_hashes_of_texts() {
    assert_eq!(simple_hash(""), 1469598103934665603);
    assert_eq!(str_hash64(""), 1469598103934665603);
    assert_eq!(str_hash64("a"), 4953267810257967366);
    assert_eq!(simple_hash("a"), str_hash64("a"));
}

#[test]
fn word_mixing() {
    assert_eq!(mix64(0), 0);
    assert_eq!(mix64(1), 12994781566227106604);
    assert_eq!(hash64(&[]), 0x9e3779b97f4a7c15);
    assert_eq!(hash64(&[1, 2, 3]), 2955120043968599979);
}

#[test]
fn a_new_process_has_no_evidence() {
    let s = LeakConfidenceStats::new(5, "app".to_string(), 3);
    assert_eq!(s.first_seen_cycle, 3);
    assert_eq!(s.last_seen_cycle, 3);
    assert!(!s.is_warmup_complete());
    assert!(!s.is_confidence_visible());
    assert_eq!(s.confidence_band(), ConfidenceBand::Unknown);
    assert_eq!(s.triage_severity(), TriageSeverity::Low);
}

#[test]
fn evidence_counts_only_after_warm_up() {
    let s = fed(&[true; 24]);
    assert_eq!(s.observed_entries, 24);
    assert!(!s.is_warmup_complete());
    assert_eq!(s.total_entries, 0);
    assert_eq!(s.anomalous_entries, 0);
    assert_eq!(s.anomalous_streak, 24);
    assert_eq!(s.first_detected_at, Some(1_004));
    assert_eq!(s.identity_key, format!("pid:5|first:1|cmd:77"));
}

#[test]
fn sustained_anomalies_raise_the_band() {
    let s = fed(&[true; 40]);
    assert!(s.is_warmup_complete());
    assert_eq!(s.total_entries, 16);
    assert_eq!(s.anomalous_entries, 16);
    assert_eq!(s.confidence_band(), ConfidenceBand::High);
    assert_eq!(s.triage_severity(), TriageSeverity::High);
    assert_eq!(s.last_detected_at, Some(1_039));
}

#[test]
fn quiet_samples_reset_the_streak_and_lower_the_band() {
    let mut pattern = vec![false; 24];
    pattern.extend(std::iter::repeat([true, true, true, true, true, false, false, false, false, false]).take(3).flatten());
    let s = fed(&pattern);
    assert_eq!(s.total_entries, 30);
    assert_eq!(s.anomalous_entries, 3);
    assert_eq!(s.anomalous_streak, 0);
    assert_eq!(s.confidence_band(), ConfidenceBand::Low);
    let mut half = vec![false; 24];
    half.extend([true; 5]);
    half.extend([false; 5]);
    half.extend([true; 10]);
    let m = fed(&half);
    assert_eq!(m.total_entries, 20);
    assert_eq!(m.anomalous_entries, 7);
    assert_eq!(m.confidence_band(), ConfidenceBand::Low);
    let mut mid = vec![false; 24];
    mid.extend([true; 14]);
    let q = fed(&mid);
    assert_eq!(q.total_entries, 14);
    assert_eq!(q.anomalous_entries, 10);
    assert_eq!(q.confidence_band(), ConfidenceBand::High);
}

#[test]
fn leak_order_puts_pinned_and_severe_first() {
    let high = fed(&[true; 40]);
    let low = fed(&[false; 40]);
    assert!(leak_precedes(&high, &low));
    assert!(!leak_precedes(&low, &high));
    let mut pinned = low.copy();
    pinned.is_pinned = true;
    assert!(leak_precedes(&pinned, &high));
}

#[test]
fn snapshots_build_the_detected_list() {
    let mut t = LeakTracker::new();
    let samples = vec![(10u32, "leaky".to_string()), (20u32, "calm".to_string()), (99u32, "monitor".to_string())];
    let mut anomaly = HashMap::new();
    anomaly.insert(10u32, true);
    let mut cmdlines = HashMap::new();
    cmdlines.insert(10u32, "/usr/bin/app".to_string());
    for cycle in 0..40 {
        t.apply_snapshot(&samples, &anomaly, &cmdlines, 5_000 + cycle, 99);
    }
    assert_eq!(t.sample_cycle, 40);
    assert_eq!(t.stats.len(), 2);
    assert!(t.stats.get(99).is_none());
    let leaky = t.stats.get(10).unwrap();
    assert_eq!(leaky.anomalous_entries, 16);
    assert_eq!(leaky.identity_key, "pid:10|first:1|cmd:10928856055181960988");
    let calm = t.stats.get(20).unwrap();
    assert_eq!(calm.anomalous_entries, 0);
    assert_eq!(t.detected_leaks.len(), 1);
    assert_eq!(t.detected_leaks[0].pid, 10);
}

#[test]
fn absent_processes_are_forgotten_after_a_while() {
    let mut t = LeakTracker::new();
    let one = vec![(20u32, "calm".to_string())];
    let none: Vec<(u32, String)> = Vec::new();
    let anomaly = HashMap::new();
    let cmd = HashMap::new();
    t.apply_snapshot(&one, &anomaly, &cmd, 0, 1);
    for _ in 0..149 {
        t.apply_snapshot(&none, &anomaly, &cmd, 0, 1);
    }
    assert_eq!(t.stats.len(), 1);
    assert!(!t.stats.get(20).unwrap().is_active);
    t.apply_snapshot(&none, &anomaly, &cmd, 0, 1);
    assert_eq!(t.stats.len(), 0);
}

#[test]
fn word_mixing_never_merges_two_words() {
    let words: Vec<u64> = vec![0, 1, 2, 3, 255, 256, 1 << 33, u64::MAX, u64::MAX - 1, 0x9e37_79b9_7f4a_7c15];
    let mixed: HashSet<u64> = words.iter().map(|&w| mix64(w)).collect();
    assert_eq!(mixed.len(), words.len());
    assert_eq!(mix64(0), 0);
    assert_ne!(mix64(2), mix64(3));
}

fn counted(pid: u32, anomalous: u64, total: u64) -> LeakConfidenceStats {
    let mut s = LeakConfidenceStats::new(pid, "app".to_string(), 1);
    s.anomalous_entries = anomalous;
    s.total_entries = total;
    s.observed_entries = total;
    s
}

#[test]
fn equal_confidences_as_doubles_fall_through_to_anomalous_entries() {
    let first = counted(1, 100_000_001, 300_000_000);
    let second = counted(2, 100_000_002, 300_000_003);
    assert_eq!(
        (100_000_001_f64 / 300_000_000_f64).to_bits(),
        (100_000_002_f64 / 300_000_003_f64).to_bits()
    );
    assert!(leak_precedes(&second, &first));
    assert!(!leak_precedes(&first, &second));
    let higher = counted(3, 20, 30);
    assert!(leak_precedes(&higher, &second));
}

#[test]
fn confidence_doubles_match_floating_point_division() {
    let pairs: Vec<(u64, u64)> = vec![
        (0, 10),
        (1, 3),
        (7, 10),
        (2, 3),
        (699_999, 1_000_000),
        (100_000_001, 300_000_000),
        (u64::MAX, u64::MAX),
        (u64::MAX - 1, u64::MAX),
        ((1 << 53) + 1, (1 << 54) + 3),
        (123_456_789_012_345_678, 987_654_321_098_765_432),
        (1, u64::MAX),
    ];
    for (a, t) in pairs {
        let q = a as f64 / t as f64;
        let (m, k) = quotient_double_of(a, t);
        let bits = q.to_bits();
        if q == 0.0 {
            assert_eq!((m, k), (0, 0));
        } else {
            let exp = ((bits >> 52) & 0x7ff) as i32;
            let mant = (bits & ((1 << 52) - 1)) | (1 << 52);
            assert_eq!((m, k), (mant as u128, exp - 1075), "{a}/{t}");
        }
    }
}

#[test]
fn bands_follow_the_confidence_double() {
    assert_eq!(counted(1, 7, 10).confidence_band(), ConfidenceBand::High);
    assert_eq!(counted(1, 699_999, 1_000_000).confidence_band(), ConfidenceBand::Medium);
    assert_eq!(counted(1, 4, 10).confidence_band(), ConfidenceBand::Medium);
    assert_eq!(counted(1, 399_999, 1_000_000).confidence_band(), ConfidenceBand::Low);
    assert_eq!(counted(1, 3, 5).confidence_band(), ConfidenceBand::Unknown);
    assert_eq!(counted(1, 6, 10).confidence_band(), ConfidenceBand::Medium);
}
