use std::collections::{HashMap, HashSet};

use system_monitor::charts::time_axis_flag_segments;
use system_monitor::dto::ProcessHierarchyNodeDTO;
use system_monitor::gui_enums::{DeepScanStatus, GuiPage, LeaksSortKey, MonitorSortKey, SortDirection};
use system_monitor::gui_state::{GuiState, InterfaceEvent};
use system_monitor::tree::hierarchy_from_dtos;

type State = GuiState<u32, String>;

fn roots() -> Vec<ProcessHierarchyNodeDTO> {
    vec![
        ProcessHierarchyNodeDTO::with_values(
            1,
            0,
            "init".to_string(),
            vec![ProcessHierarchyNodeDTO::with_values(5, 1, "sh".to_string(), vec![])],
        ),
        ProcessHierarchyNodeDTO::with_values(2, 0, "kthreadd".to_string(), vec![]),
    ]
}

#[test]
fn a_fresh_interface() {
    let s = State::new();
    assert_eq!(s.active_page, GuiPage::Monitor);
    assert_eq!(s.monitor_sort_key, MonitorSortKey::Pid);
    assert_eq!(s.monitor_sort_direction, SortDirection::Asc);
    assert_eq!(s.leaks_sort_key, LeaksSortKey::Confidence);
    assert_eq!(s.leaks_sort_direction, SortDirection::Desc);
    assert_eq!(s.status_line, "waiting for first sample...");
    assert_eq!(s.tz_offset_hours, 2);
    assert!(s.process_tree_expanded.is_empty());
}

#[test]
fn clicking_a_column_sorts_by_it() {
    let mut s = State::new();
    s.toggle_monitor_sort(MonitorSortKey::Pid);
    assert_eq!(s.monitor_sort_direction, SortDirection::Desc);
    s.toggle_monitor_sort(MonitorSortKey::Pid);
    assert_eq!(s.monitor_sort_direction, SortDirection::Asc);
    s.toggle_monitor_sort(MonitorSortKey::Name);
    assert_eq!((s.monitor_sort_key, s.monitor_sort_direction), (MonitorSortKey::Name, SortDirection::Asc));
    s.toggle_leaks_sort(LeaksSortKey::Confidence);
    assert_eq!(s.leaks_sort_direction, SortDirection::Asc);
    s.toggle_leaks_sort(LeaksSortKey::Total);
    assert_eq!((s.leaks_sort_key, s.leaks_sort_direction), (LeaksSortKey::Total, SortDirection::Asc));
    assert_eq!(SortDirection::Asc.toggled().toggled(), SortDirection::Asc);
}

#[test]
fn tree_expansion() {
    let mut s = State::new();
    s.set_process_tree(hierarchy_from_dtos(&roots()));
    assert_eq!(s.process_tree_expanded, [1u32, 2].into_iter().collect::<HashSet<_>>());
    s.toggle_tree_node(5);
    assert!(s.process_tree_expanded.contains(&5));
    s.toggle_tree_node(5);
    assert!(!s.process_tree_expanded.contains(&5));
    s.collapse_all_tree_nodes();
    assert!(s.process_tree_expanded.is_empty());
    s.expand_all_tree_nodes();
    assert_eq!(s.process_tree_expanded, [1u32, 5, 2].into_iter().collect::<HashSet<_>>());
    s.toggle_tree_node(1);
    s.set_process_tree(hierarchy_from_dtos(&roots()));
    assert_eq!(s.process_tree_expanded, [5u32, 2].into_iter().collect::<HashSet<_>>());
    s.set_tree_filter_text("sh".to_string());
    s.set_tree_focus_pid(Some(1));
    assert_eq!(s.tree_filter_text, "sh");
    assert_eq!(s.tree_focus_pid, Some(1));
}

#[test]
fn report_context_and_alert_marks() {
    let mut s = State::new();
    s.open_leak_report(4);
    assert_eq!(s.leak_report_open_pid, Some(4));
    s.toggle_leak_report_grouping();
    assert!(s.leak_report_group_by_line);
    s.close_leak_report();
    assert_eq!(s.leak_report_open_pid, None);
    s.open_process_context(9);
    assert_eq!(s.process_context_pid, Some(9));
    s.close_process_context();
    assert_eq!(s.process_context_pid, None);
    s.dismiss_leak_alert(3);
    assert!(s.dismissed_alert_pids.contains(&3));
}

#[test]
fn deep_scan_lifecycle() {
    let mut s = State::new();
    s.begin_deep_scan(7);
    let e = s.deep_scan_by_pid.get(7).unwrap();
    assert_eq!(e.status, DeepScanStatus::Running);
    assert!(e.started_at.is_some() && e.report.is_none());
    let started = e.started_at;
    s.update_deep_scan(7, 3, 42);
    let e = s.deep_scan_by_pid.get(7).unwrap();
    assert_eq!((e.status, e.snapshot_count, e.report), (DeepScanStatus::Running, 3, Some(42)));
    assert_eq!(e.started_at, started);
    s.stop_deep_scan(7);
    assert_eq!(s.deep_scan_by_pid.get(7).unwrap().status, DeepScanStatus::Off);
    s.fail_deep_scan(7, "gone".to_string());
    let e = s.deep_scan_by_pid.get(7).unwrap();
    assert_eq!(e.status, DeepScanStatus::Failed);
    assert_eq!(e.error, Some("gone".to_string()));
    assert_eq!(e.report, Some(42));
    s.fail_deep_scan(8, "never started".to_string());
    let f = s.deep_scan_by_pid.get(8).unwrap();
    assert!(f.started_at.is_none() && f.report.is_none() && f.snapshot_count == 0);
    s.stop_deep_scan(9);
    assert!(s.deep_scan_by_pid.get(9).is_none());
    s.update_deep_scan(10, 1, 5);
    assert!(s.deep_scan_by_pid.get(10).unwrap().started_at.is_some());
}

#[test]
fn reachability_scan_lifecycle() {
    let mut s = State::new();
    s.begin_reachability_scan(3);
    assert_eq!(s.reachability_by_pid.get(3).unwrap().status, DeepScanStatus::Running);
    s.complete_reachability_scan(3, "report".to_string());
    let e = s.reachability_by_pid.get(3).unwrap();
    assert_eq!(e.status, DeepScanStatus::Done);
    assert_eq!(e.report, Some("report".to_string()));
    s.fail_reachability_scan(3, "bad".to_string());
    let e = s.reachability_by_pid.get(3).unwrap();
    assert_eq!(e.status, DeepScanStatus::Failed);
    assert_eq!(e.report, Some("report".to_string()));
    assert_eq!(e.error, Some("bad".to_string()));
    s.fail_reachability_scan(4, "bad".to_string());
    assert_eq!(s.reachability_by_pid.get(4).unwrap().report, None);
}

#[test]
fn scans_of_forgotten_processes_are_dropped() {
    let mut s = State::new();
    s.begin_deep_scan(10);
    s.begin_deep_scan(30);
    s.begin_reachability_scan(30);
    let samples = vec![(10u32, "a".to_string())];
    s.apply_leak_snapshot(&samples, &HashMap::new(), &HashMap::new(), 0, 1);
    assert!(s.deep_scan_by_pid.get(10).is_some());
    assert!(s.deep_scan_by_pid.get(30).is_none());
    assert!(s.reachability_by_pid.get(30).is_none());
}

#[test]
fn flagged_runs_become_shaded_spans() {
    assert_eq!(time_axis_flag_segments(&vec![]), vec![]);
    assert_eq!(time_axis_flag_segments(&vec![true]), vec![(0, 0)]);
    assert_eq!(
        time_axis_flag_segments(&vec![false, true, true, false, true]),
        vec![(0, 3), (3, 4)]
    );
    assert_eq!(time_axis_flag_segments(&vec![false, false]), vec![]);
    assert_eq!(time_axis_flag_segments(&vec![true, false, false, true, false]), vec![(0, 1), (2, 4)]);
}

#[test]
fn process_control_outcomes_reach_the_status_line() {
    let mut s = State::new();
    s.apply_process_control_status(Some(Ok(())), "terminate", 42);
    assert_eq!(s.status_line, "queued terminate request for pid 42");
    s.apply_process_control_status(Some(Err("closed".to_string())), "kill", 7);
    assert_eq!(s.status_line, "failed to queue kill request for pid 7: closed");
    s.apply_process_control_status(None, "kill", 7);
    assert_eq!(s.status_line, "backend is not available");
    s.process_control_succeeded(42, "terminate", 15);
    assert_eq!(s.status_line, "process 42: terminate sent successfully (signal 15)");
    s.process_control_failed(42, "kill", "permission denied");
    assert_eq!(s.status_line, "process 42: kill failed: permission denied");
}

type Event = InterfaceEvent<u32, String>;

#[test]
fn backend_errors_and_the_stop_go_to_the_status_line() {
    let mut s = State::new();
    s.apply_event(Event::Error("db not available".to_string()));
    assert_eq!(s.status_line, "db not available");
    s.apply_event(Event::Stopped);
    assert_eq!(s.status_line, "sampler stopped");
    s.apply_event(Event::DeepScanAvailability(true));
    assert_eq!(s.status_line, "sampler stopped");
}

#[test]
fn process_control_events_describe_the_outcome() {
    let mut s = State::new();
    s.apply_event(Event::ProcessControlSuccess { pid: 12, operation: "terminate".to_string(), signal: 15 });
    assert_eq!(s.status_line, "process 12: terminate sent successfully (signal 15)");
    s.apply_event(Event::ProcessControlError {
        pid: 12,
        operation: "force kill".to_string(),
        message: "permission denied".to_string(),
    });
    assert_eq!(s.status_line, "process 12: force kill failed: permission denied");
}

#[test]
fn scanner_availability_and_scan_events_are_recorded() {
    let mut s = State::new();
    s.apply_event(Event::DeepScanAvailability(true));
    s.apply_event(Event::ReachabilityAvailability(false));
    assert!(s.deep_scan_available && !s.reachability_available);
    s.apply_event(Event::ReachabilityAvailability(true));
    assert!(s.reachability_available);

    s.apply_event(Event::DeepScanStarted { pid: 4 });
    s.apply_event(Event::DeepScanUpdate { pid: 4, snapshot_count: 2, report: 9 });
    let e = s.deep_scan_by_pid.get(4).unwrap();
    assert_eq!((e.status, e.snapshot_count, e.report), (DeepScanStatus::Running, 2, Some(9)));
    s.apply_event(Event::DeepScanStopped { pid: 4 });
    assert_eq!(s.deep_scan_by_pid.get(4).unwrap().status, DeepScanStatus::Off);
    s.apply_event(Event::DeepScanError { pid: 4, message: "lost".to_string() });
    let e = s.deep_scan_by_pid.get(4).unwrap();
    assert_eq!((e.status, e.report), (DeepScanStatus::Failed, Some(9)));

    s.apply_event(Event::ReachabilityScanStarted { pid: 6 });
    assert_eq!(s.reachability_by_pid.get(6).unwrap().status, DeepScanStatus::Running);
    s.apply_event(Event::ReachabilityScanResult { pid: 6, report: "r".to_string() });
    s.apply_event(Event::ReachabilityScanError { pid: 6, message: "gdb".to_string() });
    let r = s.reachability_by_pid.get(6).unwrap();
    assert_eq!(r.status, DeepScanStatus::Failed);
    assert_eq!(r.report, Some("r".to_string()));
    assert_eq!(r.error, Some("gdb".to_string()));
}
