use std::collections::HashSet;

use system_monitor::gui_enums::{DeepScanStatus, LeaksSortKey, MonitorSortKey, SortDirection};
use system_monitor::leak_report::BlockClass;
use system_monitor::leak_table::{alert_positions, analysis_pill, leak_table_order};
use system_monitor::leaks::LeakConfidenceStats;
use system_monitor::line_groups::{
    group_by_line, groups_largest_first, line_group_order, unattributed_totals, AttributedBlock,
};
use system_monitor::charts::{ChartCache, CHART_CACHE_MAX_ENTRIES};
use system_monitor::process_table::{process_table_order, thread_order_for, total_order_key, ProcessRowKey};
use system_monitor::restarts::RestartTracker;

fn leak(pid: u32, name: &str, anomalous: u64, total: u64, active: bool) -> LeakConfidenceStats {
    let mut l = LeakConfidenceStats::new(pid, name.to_string(), 1);
    l.anomalous_entries = anomalous;
    l.total_entries = total;
    l.observed_entries = total;
    l.is_active = active;
    l
}

fn table() -> Vec<LeakConfidenceStats> {
    vec![
        leak(30, "beta", 9, 10, true),
        leak(10, "Alpha", 2, 10, false),
        leak(20, "gamma", 9, 10, true),
        leak(40, "delta", 5, 20, true),
    ]
}

#[test]
fn alerts_need_an_active_high_confidence_leak_not_dismissed() {
    let t = table();
    let none: HashSet<u32> = HashSet::new();
    assert_eq!(alert_positions(&t, &none), vec![0, 2]);
    let mut dismissed = HashSet::new();
    dismissed.insert(30u32);
    assert_eq!(alert_positions(&t, &dismissed), vec![2]);
}

#[test]
fn the_leak_table_sorts_by_the_column_and_direction() {
    let t = table();
    assert_eq!(leak_table_order(&t, LeaksSortKey::Pid, SortDirection::Asc), vec![1, 2, 0, 3]);
    assert_eq!(leak_table_order(&t, LeaksSortKey::Pid, SortDirection::Desc), vec![3, 0, 2, 1]);
    assert_eq!(leak_table_order(&t, LeaksSortKey::Name, SortDirection::Asc), vec![1, 0, 3, 2]);
    // ties keep their order in both directions
    assert_eq!(leak_table_order(&t, LeaksSortKey::Confidence, SortDirection::Asc), vec![1, 3, 0, 2]);
    assert_eq!(leak_table_order(&t, LeaksSortKey::Confidence, SortDirection::Desc), vec![0, 2, 3, 1]);
    assert_eq!(leak_table_order(&t, LeaksSortKey::Total, SortDirection::Desc), vec![3, 0, 1, 2]);
    assert_eq!(leak_table_order(&t, LeaksSortKey::Status, SortDirection::Asc), vec![0, 2, 3, 1]);
    assert_eq!(leak_table_order(&t, LeaksSortKey::Anomalous, SortDirection::Asc), vec![1, 3, 0, 2]);
}

#[test]
fn the_scan_pill_names_the_best_evidence() {
    assert_eq!(
        analysis_pill(Some(DeepScanStatus::Running), true, Some(DeepScanStatus::Done)),
        ("alloc \u{25b6} + reach", "leak-pill leak-pill-capturing")
    );
    assert_eq!(
        analysis_pill(Some(DeepScanStatus::Off), true, Some(DeepScanStatus::Done)),
        ("alloc + reach", "leak-pill leak-pill-joined")
    );
    assert_eq!(
        analysis_pill(None, false, Some(DeepScanStatus::Running)),
        ("scanning\u{2026}", "leak-pill leak-pill-running")
    );
    assert_eq!(
        analysis_pill(Some(DeepScanStatus::Failed), false, None),
        ("failed", "leak-pill leak-pill-failed")
    );
    assert_eq!(analysis_pill(None, false, None), ("no scans", "leak-pill leak-pill-empty"));
}

fn row(pid: u32, name: &str, cpu: f64, mem: u64) -> ProcessRowKey {
    ProcessRowKey {
        pid,
        name: name.to_string(),
        cpu_top_bits: cpu.to_bits(),
        cpu_rel_bits: 0,
        virtual_mem: mem * 2,
        physical_mem: mem,
        disk_read_bits: 0,
        disk_write_bits: 0,
    }
}

#[test]
fn float_keys_follow_the_total_order() {
    let values = [-f64::INFINITY, -2.5, -0.0, 0.0, 1e-300, 3.0, f64::INFINITY];
    for w in values.windows(2) {
        assert!(total_order_key(w[0].to_bits()) < total_order_key(w[1].to_bits()));
    }
    assert_eq!(total_order_key(0.0f64.to_bits()), 0);
    assert_eq!(total_order_key((-0.0f64).to_bits()), -1);
}

#[test]
fn the_process_table_filters_then_sorts() {
    let rows = vec![
        row(300, "Firefox", 5.0, 100),
        row(12, "bash", -1.0, 10),
        row(7, "firewalld", 5.0, 50),
        row(1200, "sshd", 0.5, 20),
    ];
    assert_eq!(
        process_table_order(&rows, "", None, MonitorSortKey::Pid, SortDirection::Asc),
        vec![2, 1, 0, 3]
    );
    assert_eq!(
        process_table_order(&rows, "FIRE", None, MonitorSortKey::Name, SortDirection::Asc),
        vec![0, 2]
    );
    assert_eq!(
        process_table_order(&rows, "12", None, MonitorSortKey::Pid, SortDirection::Desc),
        vec![3, 1]
    );
    assert_eq!(
        process_table_order(&rows, "", None, MonitorSortKey::CpuTop, SortDirection::Desc),
        vec![0, 2, 3, 1]
    );
    let mut subtree = HashSet::new();
    subtree.insert(7u32);
    subtree.insert(12u32);
    assert_eq!(
        process_table_order(&rows, "", Some(&subtree), MonitorSortKey::PhysicalMemory, SortDirection::Desc),
        vec![2, 1]
    );
}

fn samples(list: &[(u32, &str)]) -> Vec<(u32, String)> {
    list.iter().map(|(p, n)| (*p, n.to_string())).collect()
}

#[test]
fn a_name_under_a_new_pid_counts_a_restart() {
    let mut t = RestartTracker::new();
    t.apply_snapshot(&vec![], &samples(&[(10, "nginx"), (20, "sshd")]));
    assert_eq!(t.restart_count(&"nginx".to_string()), 0);
    t.apply_snapshot(&vec![10, 20], &samples(&[(11, "nginx"), (20, "sshd")]));
    assert_eq!(t.restart_count(&"nginx".to_string()), 1);
    assert_eq!(t.restart_count(&"sshd".to_string()), 0);
    t.apply_snapshot(&vec![11, 20], &samples(&[(12, "nginx"), (20, "sshd")]));
    assert_eq!(t.restart_count(&"nginx".to_string()), 2);
}

#[test]
fn a_name_whose_pid_left_the_rows_is_forgotten() {
    let mut t = RestartTracker::new();
    t.apply_snapshot(&vec![], &samples(&[(10, "job")]));
    // pid 10 is not among the rows shown since: the name starts afresh
    t.apply_snapshot(&vec![99], &samples(&[(11, "job")]));
    assert_eq!(t.restart_count(&"job".to_string()), 0);
}

#[test]
fn two_processes_of_one_name_count_each_switch() {
    let mut t = RestartTracker::new();
    t.apply_snapshot(&vec![], &samples(&[(1, "worker"), (2, "worker")]));
    assert_eq!(t.restart_count(&"worker".to_string()), 1);
}

fn block(size: u64, class: BlockClass, stack: Option<&[&str]>) -> AttributedBlock {
    AttributedBlock {
        addr: 0,
        size,
        class,
        stack: stack.map(|s| s.iter().map(|f| f.to_string()).collect()),
    }
}

#[test]
fn blocks_are_grouped_by_source_line() {
    let a: &[&str] = &["malloc+0x1 [libc.so]", "make_buf+0x10 [app]  \u{2192}  buf.c:34"];
    let b: &[&str] = &["make_node+0x8 [app]  \u{2192}  node.c:7"];
    let blocks = vec![
        block(10, BlockClass::PossiblyLost, Some(a)),
        block(100, BlockClass::StillReachable, Some(b)),
        block(5, BlockClass::DefinitelyLost, Some(a)),
        block(7, BlockClass::IndirectlyLost, None),
    ];
    let groups = group_by_line(&blocks);
    assert_eq!(groups.len(), 3);
    assert_eq!(groups[0].key, Some("buf.c:34".to_string()));
    assert_eq!(groups[0].bytes, 15);
    assert_eq!(groups[0].count, 2);
    assert_eq!(groups[0].class, BlockClass::DefinitelyLost);
    assert_eq!(groups[0].sample_stack.len(), 2);
    assert_eq!(groups[1].key, Some("node.c:7".to_string()));
    assert_eq!(groups[2].key, None);
    assert_eq!(groups[2].class, BlockClass::IndirectlyLost);
    assert_eq!(line_group_order(&groups), vec![1, 0, 2]);
    let sorted = groups_largest_first(&blocks);
    assert_eq!(sorted[0].bytes, 100);
    assert_eq!(sorted[1].bytes, 15);
    assert_eq!(sorted[2].bytes, 7);
    assert_eq!(unattributed_totals(&blocks), (7, 1));
}

#[test]
fn a_process_lists_its_busiest_threads_first() {
    let pids = vec![5u32, 6, 5, 5, 6];
    let cpu: Vec<u64> = [1.0f64, 9.0, 3.0, 1.0, 0.0].iter().map(|c| c.to_bits()).collect();
    assert_eq!(thread_order_for(&pids, &cpu, 5), vec![2, 0, 3]);
    assert_eq!(thread_order_for(&pids, &cpu, 6), vec![1, 4]);
    assert_eq!(thread_order_for(&pids, &cpu, 7), Vec::<usize>::new());
}

#[test]
fn a_full_chart_cache_starts_over() {
    let mut c = ChartCache::new();
    for k in 0..CHART_CACHE_MAX_ENTRIES as u64 {
        c.put(k, format!("svg{k}"));
    }
    assert_eq!(c.entries.len(), CHART_CACHE_MAX_ENTRIES);
    assert_eq!(c.get(3), Some("svg3".to_string()));
    c.put(3, "again".to_string());
    assert_eq!(c.entries.len(), 1);
    assert_eq!(c.get(3), Some("again".to_string()));
    assert_eq!(c.get(4), None);
}

#[test]
fn a_history_keeps_its_last_sixty_points() {
    use_push_bounded();
}

fn use_push_bounded() {
    let mut h: Vec<u32> = Vec::new();
    for v in 0..70u32 {
        system_monitor::charts::push_bounded(&mut h, v);
    }
    assert_eq!(h.len(), system_monitor::charts::MAX_HISTORY_POINTS);
    assert_eq!(h[0], 10);
    assert_eq!(h[59], 69);
}

#[test]
fn confidences_that_are_the_same_double_tie_in_the_table() {
    let t = vec![leak(1, "a", 100_000_001, 300_000_000, true), leak(2, "b", 100_000_002, 300_000_003, true)];
    assert_eq!(leak_table_order(&t, LeaksSortKey::Confidence, SortDirection::Asc), vec![0, 1]);
    assert_eq!(leak_table_order(&t, LeaksSortKey::Confidence, SortDirection::Desc), vec![0, 1]);
    let u = vec![leak(1, "a", 2, 3, true), leak(2, "b", 1, 3, true)];
    assert_eq!(leak_table_order(&u, LeaksSortKey::Confidence, SortDirection::Asc), vec![1, 0]);
}
