use std::time::{Duration, Instant};

use system_monitor::replay::{
    sat_add, sat_mul, sat_sub, sorted_visible_count, visible_count, RatioTerms, ReplayLeakedBlock,
    ReplayPoint, ReplayScanMarker, ReplaySource, ReplayState,
};

type Player = ReplayState<u8, u8, String>;

fn pts(times: &[i64]) -> Vec<ReplayPoint<u8>> {
    times.iter().map(|&t| ReplayPoint { collected_at_ms: t, data: 0 }).collect()
}

fn loaded(times: &[i64]) -> Player {
    let mut p = Player::new_at(1_700_000_000_000);
    p.mark_loading();
    p.apply_samples(pts(times), ReplaySource::SqliteByName, "ok".to_string());
    p
}

fn marker(id: i64, started_at_ms: i64) -> ReplayScanMarker {
    ReplayScanMarker {
        id,
        pid: 1,
        started_at_ms,
        total_blocks: 0,
        total_lost_bytes: 0,
        definitely_lost_bytes: 0,
        possibly_lost_bytes: 0,
        indirectly_lost_bytes: 0,
    }
}

#[test]
fn a_new_player_covers_the_last_day() {
    let p = Player::new_at(1_700_000_000_000);
    assert_eq!(p.start_at_input, "2023-11-13 22:13:20");
    assert_eq!(p.end_at_input, "2023-11-14 22:13:20");
    assert_eq!(p.message, "Enter a process name and time range, then click Load");
    assert_eq!(p.source, ReplaySource::NotLoaded);
    assert!(p.cursor_ms.is_none() && !p.is_playing && !p.is_loading);
    let q = Player::new();
    assert!(q.samples.is_empty());
}

#[test]
fn name_requests_are_checked() {
    let mut p = Player::new_at(1_700_000_000_000);
    assert_eq!(p.build_name_request(), Err("enter a process name to look up".to_string()));
    p.set_name_lookup_input("  firefox ".to_string());
    assert_eq!(
        p.build_name_request(),
        Ok(("firefox".to_string(), 1_699_913_600_000, 1_700_000_000_000))
    );
    p.set_end_at_input("2023-11-13 22:13:20".to_string());
    assert_eq!(
        p.build_name_request(),
        Err("end timestamp must be greater than start timestamp".to_string())
    );
    p.set_start_at_input("yesterday".to_string());
    assert_eq!(p.build_name_request(), Err("invalid datetime".to_string()));
}

#[test]
fn suggestions_are_dropped_when_the_name_changes() {
    let mut p = Player::new_at(0);
    p.set_name_suggestions(vec!["a".to_string(), "b".to_string()]);
    assert_eq!(p.name_suggestions.len(), 2);
    p.pick_name_suggestion("b".to_string());
    assert_eq!(p.name_lookup_input, "b");
    assert!(p.name_suggestions.is_empty());
}

#[test]
fn loading_then_applying_puts_the_cursor_at_the_start() {
    let mut p = Player::new_at(0);
    p.mark_loading();
    assert!(p.is_loading && p.scans_loading && p.allocation_loading);
    assert_eq!(p.message, "Loading replay samples...");
    p.apply_samples(pts(&[100, 200, 300]), ReplaySource::SqliteByName, "Loaded".to_string());
    assert!(!p.is_loading);
    assert_eq!(p.cursor_ms, Some(100));
    assert_eq!(p.message, "Loaded");
}

#[test]
fn seeking_stays_within_the_loaded_span() {
    let mut p = loaded(&[1_000, 5_000, 10_000]);
    p.seek_by_seconds(3);
    assert_eq!(p.cursor_ms, Some(4_000));
    p.seek_by_seconds(100);
    assert_eq!(p.cursor_ms, Some(10_000));
    p.seek_by_seconds(-100);
    assert_eq!(p.cursor_ms, Some(1_000));
    p.seek_by_seconds(i64::MIN);
    assert_eq!(p.cursor_ms, Some(1_000));
    let mut empty = Player::new_at(0);
    empty.seek_by_seconds(5);
    assert_eq!(empty.cursor_ms, None);
}

#[test]
fn seeking_to_an_offset_and_the_ratio() {
    let mut p = loaded(&[1_000, 3_000]);
    assert_eq!(p.span_ms(), Some(2_000));
    assert_eq!(p.ratio_terms(), RatioTerms::Quotient { offset_ms: 0, span_ms: 2_000 });
    p.seek_to_offset(500);
    assert_eq!(p.cursor_ms, Some(1_500));
    assert_eq!(p.ratio_terms(), RatioTerms::Quotient { offset_ms: 500, span_ms: 2_000 });
    let single = loaded(&[7]);
    assert_eq!(single.ratio_terms(), RatioTerms::One);
    assert_eq!(Player::new_at(0).ratio_terms(), RatioTerms::Zero);
    assert_eq!(Player::new_at(0).span_ms(), None);
}

#[test]
fn play_pause_needs_samples_and_stop_rewinds() {
    let mut empty = Player::new_at(0);
    empty.toggle_play_pause();
    assert!(!empty.is_playing);
    let mut p = loaded(&[10, 20, 30]);
    p.toggle_play_pause();
    assert!(p.is_playing && p.last_tick_at.is_some());
    p.seek_by_seconds(0);
    p.advance_cursor(15);
    assert_eq!(p.cursor_ms, Some(25));
    p.toggle_play_pause();
    assert!(!p.is_playing && p.last_tick_at.is_none());
    p.stop();
    assert_eq!(p.cursor_ms, Some(10));
}

#[test]
fn ticks_move_the_cursor_and_stop_at_the_end() {
    let mut p = loaded(&[0, 1_000]);
    let start = Instant::now();
    assert_eq!(p.begin_tick(start), None);
    p.toggle_play_pause();
    p.last_tick_at = None;
    assert_eq!(p.begin_tick(start), None);
    assert_eq!(p.last_tick_at, Some(start));
    assert_eq!(p.begin_tick(start), None);
    assert_eq!(p.begin_tick(start + Duration::from_millis(250)), Some(250));
    p.advance_cursor(250);
    assert_eq!(p.cursor_ms, Some(250));
    assert!(p.is_playing);
    p.advance_cursor(750);
    assert_eq!(p.cursor_ms, Some(1_000));
    assert!(!p.is_playing && p.last_tick_at.is_none());
}

#[test]
fn selecting_a_scan_moves_the_cursor_to_it() {
    let mut p = loaded(&[0, 1_000, 2_000]);
    p.set_scan_markers(vec![marker(5, 700), marker(6, 1_500), marker(5, 1_800)]);
    assert!(!p.scans_loading);
    p.select_scan(5);
    assert_eq!(p.selected_scan_id, Some(5));
    assert!(p.blocks_loading);
    assert_eq!(p.cursor_ms, Some(700));
    p.seek_by_seconds(1);
    p.select_scan(42);
    assert_eq!(p.selected_scan_id, Some(42));
    assert_eq!(p.cursor_ms, Some(1_700));
}

#[test]
fn blocks_of_another_scan_are_ignored() {
    let mut p = loaded(&[0]);
    let block = ReplayLeakedBlock { addr: 16, size: 32, class: "definite".to_string(), stack_text: None };
    p.select_scan(1);
    p.set_selected_scan_blocks(2, vec![block.clone()]);
    assert!(p.selected_scan_blocks.is_empty() && p.blocks_loading);
    p.set_selected_scan_blocks(1, vec![block]);
    assert_eq!(p.selected_scan_blocks.len(), 1);
    assert!(!p.blocks_loading);
    p.close_scan_modal();
    assert!(p.selected_scan_id.is_none() && p.selected_scan_blocks.is_empty());
}

#[test]
fn errors_stop_loading_and_playing() {
    let mut p = loaded(&[0, 10]);
    p.toggle_play_pause();
    p.mark_sessions_loading();
    p.set_error("boom".to_string());
    assert!(!p.is_playing && !p.is_loading && p.last_tick_at.is_none());
    assert_eq!(p.message, "boom");
    assert!(p.sessions_loading);
    p.set_sessions_list(vec!["s".to_string()]);
    assert!(!p.sessions_loading);
}

#[test]
fn ranges_from_presets_and_sessions() {
    let mut p = Player::new_at(0);
    p.apply_preset_range_at(1_700_000_000_000, 3_600_000);
    assert_eq!(p.start_at_input, "2023-11-14 21:13:20");
    assert_eq!(p.end_at_input, "2023-11-14 22:13:20");
    p.apply_session_range(0, 1_000);
    assert_eq!(p.start_at_input, "1970-01-01 00:00:00");
    assert_eq!(p.end_at_input, "1970-01-01 00:00:01");
    p.apply_preset_range(60_000);
    assert!(p.end_at_input > p.start_at_input);
}

#[test]
fn visible_points_up_to_the_cursor() {
    let s = pts(&[10, 20, 20, 30]);
    assert_eq!(visible_count(&s, None), 0);
    assert_eq!(visible_count(&s, Some(20)), 3);
    assert_eq!(visible_count(&s, Some(5)), 0);
    assert_eq!(visible_count(&s, Some(99)), 4);
    assert_eq!(sorted_visible_count(&s, Some(20)), 3);
    assert_eq!(sorted_visible_count(&s, Some(9)), 0);
    assert_eq!(sorted_visible_count(&s, Some(30)), 4);
    let unsorted = pts(&[10, 50, 20]);
    assert_eq!(visible_count(&unsorted, Some(30)), 1);
}

#[test]
fn saturating_arithmetic() {
    assert_eq!(sat_add(i64::MAX, 1), i64::MAX);
    assert_eq!(sat_sub(i64::MIN, 1), i64::MIN);
    assert_eq!(sat_mul(i64::MAX / 2, 3), i64::MAX);
    assert_eq!(sat_mul(-4, 1000), -4000);
}

#[test]
fn history_by_name_reports_what_it_loaded() {
    let mut p = Player::new_at(1_700_000_000_000);
    p.mark_loading();
    p.apply_history_by_name("nginx", pts(&[10, 20, 30]));
    assert!(!p.is_loading);
    assert_eq!(p.source, ReplaySource::SqliteByName);
    assert_eq!(p.message, "Loaded 3 samples for 'nginx' (by name)");
    assert_eq!(p.cursor_ms, Some(10));
    p.apply_history_by_name("gone", vec![]);
    assert_eq!(p.source, ReplaySource::NotLoaded);
    assert_eq!(p.message, "No samples found for 'gone'");
}

#[test]
fn an_allocation_series_ends_its_loading() {
    let mut p = Player::new_at(1_700_000_000_000);
    p.allocation_loading = true;
    p.set_allocation_series(pts(&[5, 6]));
    assert!(!p.allocation_loading);
    assert_eq!(p.allocation_series.len(), 2);
    assert_eq!(p.allocation_series[1].collected_at_ms, 6);
}

use system_monitor::scan_marks::{
    marker_class, marker_style, marker_title, scan_subtitle, stack_preview, stored_class,
};

fn lost(id: i64, definitely: u64, indirectly: u64, possibly: u64) -> ReplayScanMarker {
    ReplayScanMarker {
        id,
        pid: 77,
        started_at_ms: 0,
        total_blocks: 12,
        total_lost_bytes: definitely + indirectly + possibly,
        definitely_lost_bytes: definitely,
        possibly_lost_bytes: possibly,
        indirectly_lost_bytes: indirectly,
    }
}

#[test]
fn a_scan_mark_takes_the_class_that_lost_most() {
    assert_eq!(marker_class(&lost(1, 10, 10, 10)), ("definitely", "definitely lost"));
    assert_eq!(marker_class(&lost(1, 5, 10, 10)), ("indirectly", "indirectly lost"));
    assert_eq!(marker_class(&lost(1, 5, 0, 10)), ("possibly", "possibly lost"));
    assert_eq!(marker_class(&lost(1, 0, 0, 0)), ("reachable", "reachable only"));
    assert_eq!(
        marker_style(&lost(3, 0, 4, 0), Some(3)),
        "replay-scan-marker replay-scan-marker-indirectly replay-scan-marker-selected"
    );
    assert_eq!(marker_style(&lost(3, 0, 4, 0), Some(4)), "replay-scan-marker replay-scan-marker-indirectly");
    assert_eq!(
        marker_title(&lost(3, 2048, 0, 0)),
        "scan #3 \u{b7} PID 77 \u{b7} 12 blocks \u{b7} 2.0 KB (definitely lost)"
    );
    assert_eq!(scan_subtitle(&lost(3, 100, 0, 0)), "100 B lost across 12 blocks");
}

#[test]
fn stored_blocks_show_a_short_stack() {
    assert_eq!(stored_class("definitely_lost"), ("definitely", "definitely lost"));
    assert_eq!(stored_class("possibly_lost"), ("possibly", "possibly lost"));
    assert_eq!(stored_class("still_reachable"), ("reachable", "still reachable"));
    let stack = (1..=10).map(|i| format!("frame{i}")).collect::<Vec<_>>().join("\n");
    let (lines, more) = stack_preview(Some(&stack));
    assert_eq!(lines.len(), 8);
    assert_eq!(lines[7], "frame8");
    assert_eq!(more, 2);
    assert_eq!(stack_preview(Some("a\nb")), (vec!["a".to_string(), "b".to_string()], 0));
    assert_eq!(stack_preview(None), (vec![], 0));
}

#[test]
fn seeking_anywhere_in_the_span_reads_back_the_same_offset() {
    let mut p = loaded(&[10_000, 10_400, 14_000]);
    for offset in [0_i64, 1, 399, 2_000, 3_999, 4_000] {
        p.seek_to_offset(offset);
        assert_eq!(p.ratio_terms(), RatioTerms::Quotient { offset_ms: offset, span_ms: 4_000 });
    }
    let mut flat = loaded(&[5, 5]);
    flat.seek_to_offset(0);
    assert_eq!(flat.ratio_terms(), RatioTerms::One);
}
