use system_monitor::controls::{leak_report_buttons, replay_control_texts, should_search_names, CaptureClick};
use system_monitor::gui_enums::DeepScanStatus;

#[test]
fn a_name_search_starts_at_two_bytes() {
    assert!(!should_search_names(""));
    assert!(!should_search_names("   "));
    assert!(!should_search_names(" f "));
    assert!(should_search_names("fi"));
    assert!(should_search_names("  fi  "));
    assert!(should_search_names("\u{e9}"));
    assert!(should_search_names("\u{1f600}"));
}

#[test]
fn the_load_button_needs_a_name_and_no_load_under_way() {
    let idle = replay_control_texts(false, false, "firefox");
    assert!(idle.load_enabled);
    assert_eq!(idle.load_label, "Load");
    assert_eq!(idle.refresh_label, "Refresh");
    assert_eq!(
        idle.sessions_hint,
        "No sessions loaded - click Refresh (results will be filtered to sessions where this process ran)"
    );
    let busy = replay_control_texts(true, true, "firefox");
    assert!(!busy.load_enabled);
    assert_eq!(busy.load_label, "Loading...");
    assert_eq!(busy.refresh_label, "Loading...");
    let unnamed = replay_control_texts(false, false, "  ");
    assert!(!unnamed.load_enabled);
    assert_eq!(unnamed.sessions_hint, "No sessions loaded - click Refresh to fetch from database");
}

#[test]
fn the_capture_button_follows_the_capture() {
    let running = leak_report_buttons(Some(DeepScanStatus::Running), None, true, true);
    assert_eq!(running.deep_label, "Stop allocation-scan capture");
    assert_eq!(running.deep_class, "deep-scan-btn deep-scan-btn-active");
    assert_eq!(running.deep_click, CaptureClick::Stop);
    assert!(!running.deep_disabled);
    assert_eq!(running.deep_title, "");
    let failed = leak_report_buttons(Some(DeepScanStatus::Failed), None, false, true);
    assert_eq!(failed.deep_label, "Restart allocation-scan capture");
    assert_eq!(failed.deep_class, "deep-scan-btn");
    assert_eq!(failed.deep_click, CaptureClick::Start);
    assert!(failed.deep_disabled);
    assert_eq!(failed.deep_title, "requires root / CAP_BPF and bpftrace");
    for status in [None, Some(DeepScanStatus::Off), Some(DeepScanStatus::Done)] {
        assert_eq!(leak_report_buttons(status, None, true, true).deep_label, "Start allocation-scan capture");
    }
}

#[test]
fn the_reachability_button_follows_the_scan() {
    let labels: Vec<&str> = [
        None,
        Some(DeepScanStatus::Off),
        Some(DeepScanStatus::Running),
        Some(DeepScanStatus::Done),
        Some(DeepScanStatus::Failed),
    ]
    .iter()
    .map(|&s| leak_report_buttons(None, s, true, true).reach_label)
    .collect();
    assert_eq!(labels, vec!["Run reachability scan", "Run reachability scan", "Scanning\u{2026}", "Rescan", "Retry"]);
    assert!(leak_report_buttons(None, Some(DeepScanStatus::Running), true, true).reach_disabled);
    assert!(!leak_report_buttons(None, Some(DeepScanStatus::Done), true, true).reach_disabled);
    let unavailable = leak_report_buttons(None, None, true, false);
    assert!(unavailable.reach_disabled);
    assert_eq!(unavailable.reach_title, "requires root + gcore (gdb package)");
}
