use std::collections::HashMap;

use system_monitor::backend::{
    backend_loop_step, scan_marker, should_persist_snapshot, username_for, BackendCommand,
    BackendPlanner, BackendStep, LoopAction, LoopEvent, LoopPhase, ProcessSignal, SnapshotFramer,
    WaitOutcome, QUERY_LIMIT,
};
use system_monitor::gui_enums::GuiPage;

#[test]
fn signals_go_to_the_named_process() {
    let mut p = BackendPlanner::new(true, true, true);
    assert!(matches!(
        p.plan(BackendCommand::TerminateProcess(42)),
        BackendStep::Signal { pid: 42, signal: ProcessSignal::Terminate }
    ));
    assert!(matches!(
        p.plan(BackendCommand::ForceKillProcess(7)),
        BackendStep::Signal { pid: 7, signal: ProcessSignal::Kill }
    ));
}

#[test]
fn queries_without_a_database_report_an_error() {
    let mut p = BackendPlanner::new(false, true, true);
    let step = p.plan(BackendCommand::FetchReplayMemoryByName {
        name: "nginx".to_string(),
        start_ms: 1,
        end_ms: 2,
    });
    match step {
        BackendStep::ReportError(m) => assert_eq!(m, "db not available"),
        _ => panic!("expected an error"),
    }
    assert!(matches!(
        p.plan(BackendCommand::FetchLeakedBlocksForScan { scan_id: 3 }),
        BackendStep::ReportError(_)
    ));
    assert!(matches!(
        p.plan(BackendCommand::SearchProcessNames("ng".to_string())),
        BackendStep::ReportError(_)
    ));
}

#[test]
fn queries_with_a_database_carry_their_range() {
    let mut p = BackendPlanner::new(true, false, false);
    match p.plan(BackendCommand::FetchReplayScansByName {
        name: "nginx".to_string(),
        start_ms: 10,
        end_ms: 20,
    }) {
        BackendStep::QueryScans { name, start_ms, end_ms } => {
            assert_eq!(name, "nginx");
            assert_eq!(start_ms, 10);
            assert_eq!(end_ms, 20);
        }
        _ => panic!("expected a scan query"),
    }
    match p.plan(BackendCommand::SearchProcessNames("ng".to_string())) {
        BackendStep::SearchNames { prefix, limit } => {
            assert_eq!(prefix, "ng");
            assert_eq!(limit, QUERY_LIMIT);
            assert_eq!(limit, 20);
        }
        _ => panic!("expected a name search"),
    }
}

#[test]
fn an_empty_session_filter_lists_all_sessions() {
    let mut p = BackendPlanner::new(true, true, true);
    match p.plan(BackendCommand::FetchSessionsList { name_filter: String::new() }) {
        BackendStep::QuerySessions { name, limit } => {
            assert_eq!(name, None);
            assert_eq!(limit, None);
        }
        _ => panic!("expected a session query"),
    }
    match p.plan(BackendCommand::FetchSessionsList { name_filter: "nginx".to_string() }) {
        BackendStep::QuerySessions { name, limit } => {
            assert_eq!(name, Some("nginx".to_string()));
            assert_eq!(limit, Some(20));
        }
        _ => panic!("expected a session query"),
    }
    match p.plan(BackendCommand::FetchSessionsList { name_filter: "  nginx \t".to_string() }) {
        BackendStep::QuerySessions { name, .. } => assert_eq!(name, Some("  nginx \t".to_string())),
        _ => panic!("expected a session query"),
    }
}

#[test]
fn a_second_reachability_request_waits_for_the_first() {
    let mut p = BackendPlanner::new(true, true, true);
    assert!(matches!(
        p.plan(BackendCommand::ReachabilityScan { pid: 9 }),
        BackendStep::StartReachabilityScan { pid: 9 }
    ));
    assert!(matches!(p.plan(BackendCommand::ReachabilityScan { pid: 9 }), BackendStep::Nothing));
    assert!(matches!(
        p.plan(BackendCommand::ReachabilityScan { pid: 10 }),
        BackendStep::StartReachabilityScan { pid: 10 }
    ));
    p.reachability_finished(9);
    assert!(matches!(
        p.plan(BackendCommand::ReachabilityScan { pid: 9 }),
        BackendStep::StartReachabilityScan { pid: 9 }
    ));
}

#[test]
fn an_unavailable_reachability_scan_is_reported() {
    let mut p = BackendPlanner::new(true, false, true);
    match p.plan(BackendCommand::ReachabilityScan { pid: 4 }) {
        BackendStep::ReportReachabilityError { pid, message } => {
            assert_eq!(pid, 4);
            assert_eq!(message, "reachability scan unavailable (needs root + gcore)");
        }
        _ => panic!("expected an error"),
    }
    assert!(p.reach_in_flight.is_empty());
}

#[test]
fn captures_start_once_and_stop() {
    let mut p = BackendPlanner::new(true, true, true);
    assert!(matches!(
        p.plan(BackendCommand::StartContinuousScan { pid: 5 }),
        BackendStep::StartCapture { pid: 5 }
    ));
    p.capture_started(5);
    assert!(matches!(p.plan(BackendCommand::StartContinuousScan { pid: 5 }), BackendStep::Nothing));
    assert!(matches!(
        p.plan(BackendCommand::StopContinuousScan { pid: 5 }),
        BackendStep::StopCapture { pid: 5 }
    ));
    assert!(p.capturing.is_empty());
    assert!(matches!(
        p.plan(BackendCommand::StartContinuousScan { pid: 5 }),
        BackendStep::StartCapture { pid: 5 }
    ));
    p.capture_started(5);
    p.capture_finished(5);
    assert!(p.capturing.is_empty());
}

#[test]
fn an_unavailable_capture_is_reported() {
    let mut p = BackendPlanner::new(true, true, false);
    match p.plan(BackendCommand::StartContinuousScan { pid: 8 }) {
        BackendStep::ReportCaptureError { pid, message } => {
            assert_eq!(pid, 8);
            assert_eq!(message, "allocation-scan capture unavailable (needs root + bpftrace)");
        }
        _ => panic!("expected an error"),
    }
}

#[test]
fn threads_are_sampled_on_the_monitor_page_only() {
    let mut p = BackendPlanner::new(true, true, true);
    assert!(p.samples_threads());
    assert!(matches!(p.plan(BackendCommand::SetActivePage(GuiPage::Leaks)), BackendStep::Nothing));
    assert!(!p.samples_threads());
    assert_eq!(p.active_page, GuiPage::Leaks);
    p.plan(BackendCommand::SetActivePage(GuiPage::Monitor));
    assert!(p.samples_threads());
}

#[test]
fn snapshots_are_cut_at_the_end_line() {
    let mut f = SnapshotFramer::new();
    assert_eq!(f.push_line("alloc 1"), None);
    assert_eq!(f.push_line("alloc 2"), None);
    assert_eq!(
        f.push_line("  --- END_SNAPSHOT ---  "),
        Some("alloc 1\nalloc 2\n  --- END_SNAPSHOT ---  \n".to_string())
    );
    assert!(f.chunk.is_empty());
    assert_eq!(f.push_line("--- END_SNAPSHOT"), None);
    assert_eq!(
        f.push_line("--- END_SNAPSHOT ---"),
        Some("--- END_SNAPSHOT\n--- END_SNAPSHOT ---\n".to_string())
    );
}

#[test]
fn every_nth_snapshot_is_persisted() {
    assert!(!should_persist_snapshot(0, 6));
    assert!(!should_persist_snapshot(5, 6));
    assert!(should_persist_snapshot(6, 6));
    assert!(should_persist_snapshot(12, 6));
    assert!(!should_persist_snapshot(13, 6));
}

#[test]
fn usernames_fall_back_to_the_id() {
    let mut names = HashMap::new();
    names.insert(0u32, "root".to_string());
    assert_eq!(username_for(0, &names), "root");
    assert_eq!(username_for(1000, &names), "1000");
}

#[test]
fn a_scan_marker_sums_the_lost_bytes() {
    let m = scan_marker(1, 2, 3, 4, 100, 20, 3);
    assert_eq!(m.total_lost_bytes, 123);
    assert_eq!(m.definitely_lost_bytes, 100);
    assert_eq!(m.indirectly_lost_bytes, 20);
    assert_eq!(m.possibly_lost_bytes, 3);
}

fn is_wind_down(out: &[LoopAction]) -> bool {
    matches!(out, [LoopAction::FlushStorage, LoopAction::DropCaptures, LoopAction::ReportStopped])
}

#[test]
fn a_failed_start_reports_the_error_then_stops() {
    let (phase, out) = backend_loop_step(LoopPhase::Starting, LoopEvent::InitFailed("NoProc".to_string()));
    assert_eq!(phase, LoopPhase::Stopped);
    assert_eq!(out.len(), 2);
    assert!(matches!(&out[0], LoopAction::ReportError(m) if m == "failed to initialize monitor: NoProc"));
    assert!(matches!(out[1], LoopAction::ReportStopped));
}

#[test]
fn a_started_loop_reports_both_scanners_then_samples() {
    let (phase, out) = backend_loop_step(
        LoopPhase::Starting,
        LoopEvent::Initialized { deep_scan_available: false, reachability_available: true },
    );
    assert_eq!(phase, LoopPhase::Sampling);
    assert!(matches!(
        out.as_slice(),
        [LoopAction::ReportDeepScanAvailability(false), LoopAction::ReportReachabilityAvailability(true)]
    ));
}

#[test]
fn sampling_and_waiting_alternate_until_shutdown() {
    let (phase, out) = backend_loop_step(LoopPhase::Sampling, LoopEvent::Sampled { delivered: true });
    assert_eq!(phase, LoopPhase::Waiting);
    assert!(out.is_empty());
    let (phase, out) =
        backend_loop_step(LoopPhase::Sampling, LoopEvent::SampleFailed("Io".to_string()));
    assert_eq!(phase, LoopPhase::Waiting);
    assert!(matches!(out.as_slice(), [LoopAction::ReportError(m)] if m == "sampling failed: Io"));
    let (phase, out) = backend_loop_step(LoopPhase::Waiting, LoopEvent::WaitEnded(WaitOutcome::TimedOut));
    assert_eq!(phase, LoopPhase::Sampling);
    assert!(out.is_empty());
    for outcome in [WaitOutcome::ShutdownRequested, WaitOutcome::Disconnected] {
        let (phase, out) = backend_loop_step(LoopPhase::Waiting, LoopEvent::WaitEnded(outcome));
        assert_eq!(phase, LoopPhase::Stopped);
        assert!(is_wind_down(&out));
    }
}

#[test]
fn an_undelivered_sample_ends_the_loop() {
    let (phase, out) = backend_loop_step(LoopPhase::Sampling, LoopEvent::Sampled { delivered: false });
    assert_eq!(phase, LoopPhase::Stopped);
    assert!(is_wind_down(&out));
}

#[test]
fn a_stopped_loop_does_nothing_more() {
    let (phase, out) = backend_loop_step(LoopPhase::Stopped, LoopEvent::Sampled { delivered: true });
    assert_eq!(phase, LoopPhase::Stopped);
    assert!(out.is_empty());
    let (phase, out) = backend_loop_step(LoopPhase::Waiting, LoopEvent::Sampled { delivered: true });
    assert_eq!(phase, LoopPhase::Waiting);
    assert!(out.is_empty());
}

#[test]
fn a_whole_run_reports_the_stop_once() {
    let events = vec![
        LoopEvent::Initialized { deep_scan_available: true, reachability_available: true },
        LoopEvent::Sampled { delivered: true },
        LoopEvent::WaitEnded(WaitOutcome::TimedOut),
        LoopEvent::SampleFailed("x".to_string()),
        LoopEvent::WaitEnded(WaitOutcome::ShutdownRequested),
        LoopEvent::WaitEnded(WaitOutcome::Disconnected),
        LoopEvent::Sampled { delivered: false },
    ];
    let mut phase = LoopPhase::Starting;
    let mut stops = 0;
    for event in events {
        let (next, out) = backend_loop_step(phase, event);
        stops += out.iter().filter(|a| matches!(a, LoopAction::ReportStopped)).count();
        phase = next;
    }
    assert_eq!(phase, LoopPhase::Stopped);
    assert_eq!(stops, 1);
}
