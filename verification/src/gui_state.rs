//! The interface's state apart from the sampled series: the process tree
//! and its expansion, the table sorts, the leak report and alert marks,
//! the scans of processes and the leak evidence.
//!
//! A deep-scan report and a reachability report are type parameters: the
//! state only keeps the latest one of each process.

use std::collections::{HashMap, HashSet};
use std::time::SystemTime;

use vstd::prelude::*;

use crate::clock::system_now;
use crate::dto::Pid;
use crate::gui_enums::{opposite, DeepScanStatus, GuiPage, LeaksSortKey, MonitorSortKey, SortDirection};
use crate::leaks::{samples_view, snapshot_applied, stats_views, LeakStatsView, LeakTracker};
use crate::pid_map::PidMap;
use crate::text::{append_chars, append_vec, dec, dec_chars, fmt_i64_padded, signed_zero_padded, string_of};
use crate::tree::{collect_all_pids, forest_pids, forest_view, ProcessHierarchyNodeViewModel};

verus! {

broadcast use vstd::std_specs::hash::group_hash_axioms;

/// The deep scan of one process.
pub struct DeepScanState<D> {
    pub status: DeepScanStatus,
    pub report: Option<D>,
    pub error: Option<String>,
    pub started_at: Option<SystemTime>,
    pub snapshot_count: usize,
}

/// The reachability scan of one process.
pub struct ReachabilityScanState<R> {
    pub status: DeepScanStatus,
    pub report: Option<R>,
    pub error: Option<String>,
}

/// The interface's state apart from the sampled series.
pub struct GuiState<D, R> {
    pub process_tree_roots: Vec<ProcessHierarchyNodeViewModel>,
    pub process_tree_expanded: HashSet<Pid>,
    pub tree_filter_text: String,
    pub tree_focus_pid: Option<Pid>,
    pub deep_scan_available: bool,
    pub deep_scan_by_pid: PidMap<DeepScanState<D>>,
    pub reachability_available: bool,
    pub reachability_by_pid: PidMap<ReachabilityScanState<R>>,
    pub monitor_sort_key: MonitorSortKey,
    pub monitor_sort_direction: SortDirection,
    pub leaks_sort_key: LeaksSortKey,
    pub leaks_sort_direction: SortDirection,
    pub process_context_pid: Option<Pid>,
    pub leak_report_open_pid: Option<Pid>,
    pub leak_report_group_by_line: bool,
    pub dismissed_alert_pids: HashSet<Pid>,
    pub selected_pid: Option<Pid>,
    pub details_expanded: bool,
    pub active_page: GuiPage,
    pub settings_storage_enabled: bool,
    pub settings_anomaly_enabled: bool,
    pub filter_text: String,
    pub status_line: String,
    pub tz_offset_hours: i8,
    pub subtree_filter_pids: Option<HashSet<Pid>>,
    pub leaks: LeakTracker,
}

/// The sort after a click on a column: the same column flips the
/// direction, another column sorts ascending by it.
pub open spec fn sort_after_click<K>(key: K, dir: SortDirection, clicked: K) -> (K, SortDirection) {
    if key == clicked {
        (key, opposite(dir))
    } else {
        (clicked, SortDirection::Asc)
    }
}

/// Two clicks on the same column sort by it in the direction the first
/// click did not: a click on the current column undoes the previous click
/// on it, and a click on another column followed by a second click sorts
/// descending by it.
pub proof fn lemma_second_click_flips<K>(key: K, dir: SortDirection, clicked: K)
    ensures
        ({
            let first = sort_after_click(key, dir, clicked);
            let second = sort_after_click(first.0, first.1, clicked);
            &&& first.0 == clicked
            &&& second.0 == clicked
            &&& second.1 == opposite(first.1)
            &&& key == clicked ==> second.1 == dir
        }),
{
}

/// The expanded set after toggling a node: removed when it was in, added when not.
pub open spec fn toggled_in(s: Set<Pid>, pid: Pid) -> Set<Pid> {
    if s.contains(pid) {
        s.remove(pid)
    } else {
        s.insert(pid)
    }
}

/// Toggling a node twice leaves the expanded set as it was.
pub proof fn lemma_toggle_twice(s: Set<Pid>, pid: Pid)
    ensures
        toggled_in(toggled_in(s, pid), pid) == s,
{
    assert(toggled_in(toggled_in(s, pid), pid) =~= s);
}

impl<D, R> GuiState<D, R> {
    /// The maps are well formed and the leak evidence is.
    pub open spec fn wf(&self) -> bool {
        &&& self.deep_scan_by_pid.wf()
        &&& self.reachability_by_pid.wf()
        &&& self.leaks.wf()
    }

    /// The process tree fields are those of `other`.
    pub open spec fn same_tree(&self, other: &Self) -> bool {
        &&& self.process_tree_roots@ == other.process_tree_roots@
        &&& self.process_tree_expanded@ == other.process_tree_expanded@
        &&& self.tree_filter_text@ == other.tree_filter_text@
        &&& self.tree_focus_pid == other.tree_focus_pid
    }

    /// The scan fields are those of `other`.
    pub open spec fn same_scans(&self, other: &Self) -> bool {
        &&& self.deep_scan_available == other.deep_scan_available
        &&& self.deep_scan_by_pid@ == other.deep_scan_by_pid@
        &&& self.reachability_available == other.reachability_available
        &&& self.reachability_by_pid@ == other.reachability_by_pid@
    }

    /// The sort fields are those of `other`.
    pub open spec fn same_sorts(&self, other: &Self) -> bool {
        &&& self.monitor_sort_key == other.monitor_sort_key
        &&& self.monitor_sort_direction == other.monitor_sort_direction
        &&& self.leaks_sort_key == other.leaks_sort_key
        &&& self.leaks_sort_direction == other.leaks_sort_direction
    }

    /// The context menu, leak report and dismissed alerts are those of `other`.
    pub open spec fn same_marks(&self, other: &Self) -> bool {
        &&& self.process_context_pid == other.process_context_pid
        &&& self.leak_report_open_pid == other.leak_report_open_pid
        &&& self.leak_report_group_by_line == other.leak_report_group_by_line
        &&& self.dismissed_alert_pids@ == other.dismissed_alert_pids@
    }

    /// The remaining fields are those of `other`.
    pub open spec fn same_rest(&self, other: &Self) -> bool {
        &&& self.selected_pid == other.selected_pid
        &&& self.details_expanded == other.details_expanded
        &&& self.active_page == other.active_page
        &&& self.settings_storage_enabled == other.settings_storage_enabled
        &&& self.settings_anomaly_enabled == other.settings_anomaly_enabled
        &&& self.filter_text@ == other.filter_text@
        &&& self.status_line@ == other.status_line@
        &&& self.tz_offset_hours == other.tz_offset_hours
        &&& self.subtree_filter_pids == other.subtree_filter_pids
        &&& self.leaks == other.leaks
    }

    /// The remaining fields but the status line are those of `other`.
    pub open spec fn same_rest_but_status(&self, other: &Self) -> bool {
        &&& self.selected_pid == other.selected_pid
        &&& self.details_expanded == other.details_expanded
        &&& self.active_page == other.active_page
        &&& self.settings_storage_enabled == other.settings_storage_enabled
        &&& self.settings_anomaly_enabled == other.settings_anomaly_enabled
        &&& self.filter_text@ == other.filter_text@
        &&& self.tz_offset_hours == other.tz_offset_hours
        &&& self.subtree_filter_pids == other.subtree_filter_pids
        &&& self.leaks == other.leaks
    }

    /// The state of a fresh interface.
    pub fn new() -> (r: Self)
        ensures
            r.wf(),
            r.process_tree_roots@.len() == 0,
            r.process_tree_expanded@.is_empty(),
            r.tree_filter_text@.len() == 0,
            r.tree_focus_pid is None,
            !r.deep_scan_available,
            r.deep_scan_by_pid@.is_empty(),
            !r.reachability_available,
            r.reachability_by_pid@.is_empty(),
            r.monitor_sort_key == MonitorSortKey::Pid,
            r.monitor_sort_direction == SortDirection::Asc,
            r.leaks_sort_key == LeaksSortKey::Confidence,
            r.leaks_sort_direction == SortDirection::Desc,
            r.process_context_pid is None,
            r.leak_report_open_pid is None,
            !r.leak_report_group_by_line,
            r.dismissed_alert_pids@.is_empty(),
            r.selected_pid is None,
            !r.details_expanded,
            r.active_page == GuiPage::Monitor,
            !r.settings_storage_enabled,
            !r.settings_anomaly_enabled,
            r.filter_text@.len() == 0,
            r.status_line@ == "waiting for first sample..."@,
            r.tz_offset_hours == 2,
            r.subtree_filter_pids is None,
            r.leaks.sample_cycle == 0,
            stats_views(r.leaks.stats@) == Map::<Pid, LeakStatsView>::empty(),
            r.leaks.detected_leaks@.len() == 0,
    {
        let r = GuiState {
            process_tree_roots: Vec::new(),
            process_tree_expanded: HashSet::new(),
            tree_filter_text: String::new(),
            tree_focus_pid: None,
            deep_scan_available: false,
            deep_scan_by_pid: PidMap::new(),
            reachability_available: false,
            reachability_by_pid: PidMap::new(),
            monitor_sort_key: MonitorSortKey::Pid,
            monitor_sort_direction: SortDirection::Asc,
            leaks_sort_key: LeaksSortKey::Confidence,
            leaks_sort_direction: SortDirection::Desc,
            process_context_pid: None,
            leak_report_open_pid: None,
            leak_report_group_by_line: false,
            dismissed_alert_pids: HashSet::new(),
            selected_pid: None,
            details_expanded: false,
            active_page: GuiPage::Monitor,
            settings_storage_enabled: false,
            settings_anomaly_enabled: false,
            filter_text: String::new(),
            status_line: String::from_str("waiting for first sample..."),
            tz_offset_hours: 2,
            subtree_filter_pids: None,
            leaks: LeakTracker::new(),
        };
        r
    }

    /// Opens the leak report of a process.
    pub fn open_leak_report(&mut self, pid: Pid)
        ensures
            final(self).leak_report_open_pid == Some(pid),
            final(self).process_context_pid == old(self).process_context_pid,
            final(self).leak_report_group_by_line == old(self).leak_report_group_by_line,
            final(self).dismissed_alert_pids@ == old(self).dismissed_alert_pids@,
            final(self).same_tree(old(self)),
            final(self).same_scans(old(self)),
            final(self).same_sorts(old(self)),
            final(self).same_rest(old(self)),
    {
        self.leak_report_open_pid = Some(pid);
    }

    /// Switches the leak report between listing blocks and grouping them by line.
    pub fn toggle_leak_report_grouping(&mut self)
        ensures
            final(self).leak_report_group_by_line == !old(self).leak_report_group_by_line,
            final(self).leak_report_open_pid == old(self).leak_report_open_pid,
            final(self).process_context_pid == old(self).process_context_pid,
            final(self).dismissed_alert_pids@ == old(self).dismissed_alert_pids@,
            final(self).same_tree(old(self)),
            final(self).same_scans(old(self)),
            final(self).same_sorts(old(self)),
            final(self).same_rest(old(self)),
    {
        self.leak_report_group_by_line = !self.leak_report_group_by_line;
    }

    /// Closes the leak report.
    pub fn close_leak_report(&mut self)
        ensures
            final(self).leak_report_open_pid is None,
            final(self).process_context_pid == old(self).process_context_pid,
            final(self).leak_report_group_by_line == old(self).leak_report_group_by_line,
            final(self).dismissed_alert_pids@ == old(self).dismissed_alert_pids@,
            final(self).same_tree(old(self)),
            final(self).same_scans(old(self)),
            final(self).same_sorts(old(self)),
            final(self).same_rest(old(self)),
    {
        self.leak_report_open_pid = None;
    }

    /// Opens the context menu of a process.
    pub fn open_process_context(&mut self, pid: Pid)
        ensures
            final(self).process_context_pid == Some(pid),
            final(self).leak_report_open_pid == old(self).leak_report_open_pid,
            final(self).leak_report_group_by_line == old(self).leak_report_group_by_line,
            final(self).dismissed_alert_pids@ == old(self).dismissed_alert_pids@,
            final(self).same_tree(old(self)),
            final(self).same_scans(old(self)),
            final(self).same_sorts(old(self)),
            final(self).same_rest(old(self)),
    {
        self.process_context_pid = Some(pid);
    }

    /// Closes the context menu.
    pub fn close_process_context(&mut self)
        ensures
            final(self).process_context_pid is None,
            final(self).leak_report_open_pid == old(self).leak_report_open_pid,
            final(self).leak_report_group_by_line == old(self).leak_report_group_by_line,
            final(self).dismissed_alert_pids@ == old(self).dismissed_alert_pids@,
            final(self).same_tree(old(self)),
            final(self).same_scans(old(self)),
            final(self).same_sorts(old(self)),
            final(self).same_rest(old(self)),
    {
        self.process_context_pid = None;
    }

    /// Stops alerting about a process.
    pub fn dismiss_leak_alert(&mut self, pid: Pid)
        ensures
            final(self).dismissed_alert_pids@ == old(self).dismissed_alert_pids@.insert(pid),
            final(self).process_context_pid == old(self).process_context_pid,
            final(self).leak_report_open_pid == old(self).leak_report_open_pid,
            final(self).leak_report_group_by_line == old(self).leak_report_group_by_line,
            final(self).same_tree(old(self)),
            final(self).same_scans(old(self)),
            final(self).same_sorts(old(self)),
            final(self).same_rest(old(self)),
    {
        self.dismissed_alert_pids.insert(pid);
    }

    /// A click on a column of the process table.
    pub fn toggle_monitor_sort(&mut self, key: MonitorSortKey)
        ensures
            (final(self).monitor_sort_key, final(self).monitor_sort_direction) == sort_after_click(
                old(self).monitor_sort_key,
                old(self).monitor_sort_direction,
                key,
            ),
            final(self).leaks_sort_key == old(self).leaks_sort_key,
            final(self).leaks_sort_direction == old(self).leaks_sort_direction,
            final(self).same_tree(old(self)),
            final(self).same_scans(old(self)),
            final(self).same_marks(old(self)),
            final(self).same_rest(old(self)),
    {
        if self.monitor_sort_key == key {
            self.monitor_sort_direction = self.monitor_sort_direction.toggled();
        } else {
            self.monitor_sort_key = key;
            self.monitor_sort_direction = SortDirection::Asc;
        }
    }

    /// A click on a column of the leak table.
    pub fn toggle_leaks_sort(&mut self, key: LeaksSortKey)
        ensures
            (final(self).leaks_sort_key, final(self).leaks_sort_direction) == sort_after_click(
                old(self).leaks_sort_key,
                old(self).leaks_sort_direction,
                key,
            ),
            final(self).monitor_sort_key == old(self).monitor_sort_key,
            final(self).monitor_sort_direction == old(self).monitor_sort_direction,
            final(self).same_tree(old(self)),
            final(self).same_scans(old(self)),
            final(self).same_marks(old(self)),
            final(self).same_rest(old(self)),
    {
        if self.leaks_sort_key == key {
            self.leaks_sort_direction = self.leaks_sort_direction.toggled();
        } else {
            self.leaks_sort_key = key;
            self.leaks_sort_direction = SortDirection::Asc;
        }
    }

    /// Expands a collapsed node of the tree, collapses an expanded one.
    pub fn toggle_tree_node(&mut self, pid: Pid)
        ensures
            final(self).process_tree_expanded@ == toggled_in(old(self).process_tree_expanded@, pid),
            final(self).process_tree_roots@ == old(self).process_tree_roots@,
            final(self).tree_filter_text@ == old(self).tree_filter_text@,
            final(self).tree_focus_pid == old(self).tree_focus_pid,
            final(self).same_scans(old(self)),
            final(self).same_sorts(old(self)),
            final(self).same_marks(old(self)),
            final(self).same_rest(old(self)),
    {
        if !self.process_tree_expanded.insert(pid) {
            self.process_tree_expanded.remove(&pid);
        }
    }

    /// Sets the tree's filter text.
    pub fn set_tree_filter_text(&mut self, text: String)
        ensures
            final(self).tree_filter_text == text,
            final(self).process_tree_roots@ == old(self).process_tree_roots@,
            final(self).process_tree_expanded@ == old(self).process_tree_expanded@,
            final(self).tree_focus_pid == old(self).tree_focus_pid,
            final(self).same_scans(old(self)),
            final(self).same_sorts(old(self)),
            final(self).same_marks(old(self)),
            final(self).same_rest(old(self)),
    {
        self.tree_filter_text = text;
    }

    /// Focuses the tree on a process, or on all roots.
    pub fn set_tree_focus_pid(&mut self, pid: Option<Pid>)
        ensures
            final(self).tree_focus_pid == pid,
            final(self).process_tree_roots@ == old(self).process_tree_roots@,
            final(self).process_tree_expanded@ == old(self).process_tree_expanded@,
            final(self).tree_filter_text@ == old(self).tree_filter_text@,
            final(self).same_scans(old(self)),
            final(self).same_sorts(old(self)),
            final(self).same_marks(old(self)),
            final(self).same_rest(old(self)),
    {
        self.tree_focus_pid = pid;
    }

    /// Collapses every node of the tree.
    pub fn collapse_all_tree_nodes(&mut self)
        ensures
            final(self).process_tree_expanded@.is_empty(),
            final(self).process_tree_roots@ == old(self).process_tree_roots@,
            final(self).tree_filter_text@ == old(self).tree_filter_text@,
            final(self).tree_focus_pid == old(self).tree_focus_pid,
            final(self).same_scans(old(self)),
            final(self).same_sorts(old(self)),
            final(self).same_marks(old(self)),
            final(self).same_rest(old(self)),
    {
        self.process_tree_expanded.clear();
    }

    /// Expands every node of the tree.
    pub fn expand_all_tree_nodes(&mut self)
        ensures
            final(self).process_tree_expanded@ == forest_pids(
                forest_view(old(self).process_tree_roots@),
            ),
            final(self).process_tree_roots@ == old(self).process_tree_roots@,
            final(self).tree_filter_text@ == old(self).tree_filter_text@,
            final(self).tree_focus_pid == old(self).tree_focus_pid,
            final(self).same_scans(old(self)),
            final(self).same_sorts(old(self)),
            final(self).same_marks(old(self)),
            final(self).same_rest(old(self)),
    {
        self.process_tree_expanded = collect_all_pids(&self.process_tree_roots);
    }

    /// Takes a newly sampled tree; when nothing is expanded yet, the roots are.
    pub fn set_process_tree(&mut self, roots: Vec<ProcessHierarchyNodeViewModel>)
        ensures
            final(self).process_tree_roots@ == roots@,
            old(self).process_tree_expanded@.is_empty() ==> final(self).process_tree_expanded@
                == roots@.map_values(|n: ProcessHierarchyNodeViewModel| n.pid).to_set(),
            !old(self).process_tree_expanded@.is_empty() ==> final(self).process_tree_expanded@
                == old(self).process_tree_expanded@,
            final(self).tree_filter_text@ == old(self).tree_filter_text@,
            final(self).tree_focus_pid == old(self).tree_focus_pid,
            final(self).same_scans(old(self)),
            final(self).same_sorts(old(self)),
            final(self).same_marks(old(self)),
            final(self).same_rest(old(self)),
    {
        let was_empty = self.process_tree_expanded.is_empty();
        self.process_tree_roots = roots;
        if was_empty {
            let ghost pids = self.process_tree_roots@.map_values(
                |n: ProcessHierarchyNodeViewModel| n.pid,
            );
            let mut set: HashSet<Pid> = HashSet::new();
            let mut i: usize = 0;
            proof {
                assert(pids.take(0) =~= Seq::<Pid>::empty());
                assert(set@ =~= pids.take(0).to_set());
            }
            while i < self.process_tree_roots.len()
                invariant
                    i <= self.process_tree_roots@.len(),
                    pids == self.process_tree_roots@.map_values(
                        |n: ProcessHierarchyNodeViewModel| n.pid,
                    ),
                    set@ == pids.take(i as int).to_set(),
                decreases self.process_tree_roots@.len() - i,
            {
                let p = self.process_tree_roots[i].pid;
                set.insert(p);
                proof {
                    assert(pids.take(i + 1) =~= pids.take(i as int).push(p));
                    pids.take(i as int).lemma_push_to_set_commute(p);
                }
                i = i + 1;
            }
            proof {
                assert(pids.take(i as int) =~= pids);
            }
            self.process_tree_expanded = set;
        }
    }

    /// Marks the reachability scan of a process as running, with no result yet.
    pub fn begin_reachability_scan(&mut self, pid: Pid)
        requires
            old(self).wf(),
        ensures
            final(self).wf(),
            final(self).reachability_by_pid@ == old(self).reachability_by_pid@.insert(
                pid,
                ReachabilityScanState { status: DeepScanStatus::Running, report: None, error: None },
            ),
            final(self).reachability_available == old(self).reachability_available,
            final(self).deep_scan_by_pid@ == old(self).deep_scan_by_pid@,
            final(self).deep_scan_available == old(self).deep_scan_available,
            final(self).same_tree(old(self)),
            final(self).same_sorts(old(self)),
            final(self).same_marks(old(self)),
            final(self).same_rest(old(self)),
    {
        self.reachability_by_pid.insert(
            pid,
            ReachabilityScanState { status: DeepScanStatus::Running, report: None, error: None },
        );
    }

    /// Records the result of a process's reachability scan.
    pub fn complete_reachability_scan(&mut self, pid: Pid, report: R)
        requires
            old(self).wf(),
        ensures
            final(self).wf(),
            final(self).reachability_by_pid@ == old(self).reachability_by_pid@.insert(
                pid,
                ReachabilityScanState {
                    status: DeepScanStatus::Done,
                    report: Some(report),
                    error: None,
                },
            ),
            final(self).reachability_available == old(self).reachability_available,
            final(self).deep_scan_by_pid@ == old(self).deep_scan_by_pid@,
            final(self).deep_scan_available == old(self).deep_scan_available,
            final(self).same_tree(old(self)),
            final(self).same_sorts(old(self)),
            final(self).same_marks(old(self)),
            final(self).same_rest(old(self)),
    {
        self.reachability_by_pid.insert(
            pid,
            ReachabilityScanState {
                status: DeepScanStatus::Done,
                report: Some(report),
                error: None,
            },
        );
    }

    /// Records that a process's reachability scan failed; an earlier result is kept.
    pub fn fail_reachability_scan(&mut self, pid: Pid, message: String)
        requires
            old(self).wf(),
        ensures
            final(self).wf(),
            final(self).reachability_by_pid@ == old(self).reachability_by_pid@.insert(
                pid,
                ReachabilityScanState {
                    status: DeepScanStatus::Failed,
                    report: if old(self).reachability_by_pid@.contains_key(pid) {
                        old(self).reachability_by_pid@[pid].report
                    } else {
                        None
                    },
                    error: Some(message),
                },
            ),
            final(self).reachability_available == old(self).reachability_available,
            final(self).deep_scan_by_pid@ == old(self).deep_scan_by_pid@,
            final(self).deep_scan_available == old(self).deep_scan_available,
            final(self).same_tree(old(self)),
            final(self).same_sorts(old(self)),
            final(self).same_marks(old(self)),
            final(self).same_rest(old(self)),
    {
        let report = match self.reachability_by_pid.remove(pid) {
            Some(entry) => entry.report,
            None => None,
        };
        self.reachability_by_pid.insert(
            pid,
            ReachabilityScanState { status: DeepScanStatus::Failed, report, error: Some(message) },
        );
        proof {
            assert(self.reachability_by_pid@ =~= old(self).reachability_by_pid@.insert(
                pid,
                ReachabilityScanState {
                    status: DeepScanStatus::Failed,
                    report: if old(self).reachability_by_pid@.contains_key(pid) {
                        old(self).reachability_by_pid@[pid].report
                    } else {
                        None
                    },
                    error: Some(message),
                },
            ));
        }
    }

    /// Starts the deep scan of a process: running since now, nothing yet.
    pub fn begin_deep_scan(&mut self, pid: Pid)
        requires
            old(self).wf(),
        ensures
            final(self).wf(),
            final(self).deep_scan_by_pid@.remove(pid) == old(self).deep_scan_by_pid@.remove(pid),
            final(self).deep_scan_by_pid@.contains_key(pid),
            ({
                let e = final(self).deep_scan_by_pid@[pid];
                &&& e.status == DeepScanStatus::Running
                &&& e.report is None
                &&& e.error is None
                &&& e.started_at is Some
                &&& e.snapshot_count == 0
            }),
            final(self).deep_scan_available == old(self).deep_scan_available,
            final(self).reachability_by_pid@ == old(self).reachability_by_pid@,
            final(self).reachability_available == old(self).reachability_available,
            final(self).same_tree(old(self)),
            final(self).same_sorts(old(self)),
            final(self).same_marks(old(self)),
            final(self).same_rest(old(self)),
    {
        let now = system_now();
        self.deep_scan_by_pid.insert(
            pid,
            DeepScanState {
                status: DeepScanStatus::Running,
                report: None,
                error: None,
                started_at: Some(now),
                snapshot_count: 0,
            },
        );
        assert(self.deep_scan_by_pid@.remove(pid) =~= old(self).deep_scan_by_pid@.remove(pid));
    }

    /// Records a progress report of a process's deep scan; a scan not
    /// started before counts as started now.
    pub fn update_deep_scan(&mut self, pid: Pid, snapshot_count: usize, report: D)
        requires
            old(self).wf(),
        ensures
            final(self).wf(),
            final(self).deep_scan_by_pid@.remove(pid) == old(self).deep_scan_by_pid@.remove(pid),
            final(self).deep_scan_by_pid@.contains_key(pid),
            ({
                let e = final(self).deep_scan_by_pid@[pid];
                &&& e.status == DeepScanStatus::Running
                &&& e.report == Some(report)
                &&& e.error is None
                &&& e.snapshot_count == snapshot_count
                &&& old(self).deep_scan_by_pid@.contains_key(pid) ==> e.started_at == old(
                    self,
                ).deep_scan_by_pid@[pid].started_at
                &&& !old(self).deep_scan_by_pid@.contains_key(pid) ==> e.started_at is Some
            }),
            final(self).deep_scan_available == old(self).deep_scan_available,
            final(self).reachability_by_pid@ == old(self).reachability_by_pid@,
            final(self).reachability_available == old(self).reachability_available,
            final(self).same_tree(old(self)),
            final(self).same_sorts(old(self)),
            final(self).same_marks(old(self)),
            final(self).same_rest(old(self)),
    {
        let started_at = match self.deep_scan_by_pid.remove(pid) {
            Some(entry) => entry.started_at,
            None => Some(system_now()),
        };
        self.deep_scan_by_pid.insert(
            pid,
            DeepScanState {
                status: DeepScanStatus::Running,
                report: Some(report),
                error: None,
                started_at,
                snapshot_count,
            },
        );
        assert(self.deep_scan_by_pid@.remove(pid) =~= old(self).deep_scan_by_pid@.remove(pid));
    }

    /// Turns a process's deep scan off, if it has one.
    pub fn stop_deep_scan(&mut self, pid: Pid)
        requires
            old(self).wf(),
        ensures
            final(self).wf(),
            final(self).deep_scan_by_pid@.remove(pid) == old(self).deep_scan_by_pid@.remove(pid),
            final(self).deep_scan_by_pid@.contains_key(pid) == old(
                self,
            ).deep_scan_by_pid@.contains_key(pid),
            old(self).deep_scan_by_pid@.contains_key(pid) ==> {
                let e = final(self).deep_scan_by_pid@[pid];
                let o = old(self).deep_scan_by_pid@[pid];
                &&& e.status == DeepScanStatus::Off
                &&& e.report == o.report
                &&& e.error == o.error
                &&& e.started_at == o.started_at
                &&& e.snapshot_count == o.snapshot_count
            },
            final(self).deep_scan_available == old(self).deep_scan_available,
            final(self).reachability_by_pid@ == old(self).reachability_by_pid@,
            final(self).reachability_available == old(self).reachability_available,
            final(self).same_tree(old(self)),
            final(self).same_sorts(old(self)),
            final(self).same_marks(old(self)),
            final(self).same_rest(old(self)),
    {
        match self.deep_scan_by_pid.remove(pid) {
            Some(entry) => {
                self.deep_scan_by_pid.insert(
                    pid,
                    DeepScanState {
                        status: DeepScanStatus::Off,
                        report: entry.report,
                        error: entry.error,
                        started_at: entry.started_at,
                        snapshot_count: entry.snapshot_count,
                    },
                );
                assert(self.deep_scan_by_pid@.remove(pid) =~= old(self).deep_scan_by_pid@.remove(
                    pid,
                ));
            },
            None => {
                assert(self.deep_scan_by_pid@ =~= old(self).deep_scan_by_pid@);
            },
        }
    }

    /// Records that a process's deep scan failed; what it had found is kept.
    pub fn fail_deep_scan(&mut self, pid: Pid, message: String)
        requires
            old(self).wf(),
        ensures
            final(self).wf(),
            final(self).deep_scan_by_pid@.remove(pid) == old(self).deep_scan_by_pid@.remove(pid),
            final(self).deep_scan_by_pid@.contains_key(pid),
            ({
                let e = final(self).deep_scan_by_pid@[pid];
                &&& e.status == DeepScanStatus::Failed
                &&& e.error == Some(message)
                &&& old(self).deep_scan_by_pid@.contains_key(pid) ==> {
                    let o = old(self).deep_scan_by_pid@[pid];
                    &&& e.report == o.report
                    &&& e.started_at == o.started_at
                    &&& e.snapshot_count == o.snapshot_count
                }
                &&& !old(self).deep_scan_by_pid@.contains_key(pid) ==> {
                    &&& e.report is None
                    &&& e.started_at is None
                    &&& e.snapshot_count == 0
                }
            }),
            final(self).deep_scan_available == old(self).deep_scan_available,
            final(self).reachability_by_pid@ == old(self).reachability_by_pid@,
            final(self).reachability_available == old(self).reachability_available,
            final(self).same_tree(old(self)),
            final(self).same_sorts(old(self)),
            final(self).same_marks(old(self)),
            final(self).same_rest(old(self)),
    {
        let entry = match self.deep_scan_by_pid.remove(pid) {
            Some(e) => DeepScanState {
                status: DeepScanStatus::Failed,
                report: e.report,
                error: Some(message),
                started_at: e.started_at,
                snapshot_count: e.snapshot_count,
            },
            None => DeepScanState {
                status: DeepScanStatus::Failed,
                report: None,
                error: Some(message),
                started_at: None,
                snapshot_count: 0,
            },
        };
        self.deep_scan_by_pid.insert(pid, entry);
        assert(self.deep_scan_by_pid@.remove(pid) =~= old(self).deep_scan_by_pid@.remove(pid));
    }

    /// Applies the processes of a snapshot to the leak evidence and forgets
    /// the scans of processes whose evidence was dropped.
    pub fn apply_leak_snapshot(
        &mut self,
        samples: &Vec<(Pid, String)>,
        anomaly_by_pid: &HashMap<Pid, bool>,
        cmdline_by_pid: &HashMap<Pid, String>,
        collected_at_ms: i64,
        own_pid: Pid,
    )
        requires
            old(self).wf(),
        ensures
            final(self).wf(),
            snapshot_applied(
                old(self).leaks,
                final(self).leaks,
                samples_view(samples@),
                anomaly_by_pid@,
                cmdline_by_pid@,
                collected_at_ms,
                own_pid,
            ),
            final(self).deep_scan_by_pid@ == old(self).deep_scan_by_pid@.restrict(
                final(self).leaks.stats@.dom(),
            ),
            final(self).reachability_by_pid@ == old(self).reachability_by_pid@.restrict(
                final(self).leaks.stats@.dom(),
            ),
            final(self).deep_scan_available == old(self).deep_scan_available,
            final(self).reachability_available == old(self).reachability_available,
            final(self).same_tree(old(self)),
            final(self).same_sorts(old(self)),
            final(self).same_marks(old(self)),
    {
        self.leaks.apply_snapshot(samples, anomaly_by_pid, cmdline_by_pid, collected_at_ms, own_pid);
        self.deep_scan_by_pid.retain_in(&self.leaks.stats);
        self.reachability_by_pid.retain_in(&self.leaks.stats);
    }

    /// Shows how queueing a process control request went: queued, refused
    /// with a reason, or no backend to send it to.
    pub fn apply_process_control_status(&mut self, result: Option<Result<(), String>>, verb: &str, pid: Pid)
        ensures
            final(self).status_line@ == match result {
                Some(Ok(_)) => "queued "@ + verb@ + " request for pid "@ + dec(pid as nat),
                Some(Err(e)) => "failed to queue "@ + verb@ + " request for pid "@ + dec(pid as nat)
                    + ": "@ + e@,
                None => "backend is not available"@,
            },
            final(self).filter_text@ == old(self).filter_text@,
            final(self).selected_pid == old(self).selected_pid,
            final(self).details_expanded == old(self).details_expanded,
            final(self).active_page == old(self).active_page,
            final(self).leaks == old(self).leaks,
            final(self).same_tree(old(self)),
            final(self).same_scans(old(self)),
            final(self).same_sorts(old(self)),
            final(self).same_marks(old(self)),
    {
        let mut out: Vec<char> = Vec::new();
        match result {
            Some(Ok(_)) => {
                append_chars(&mut out, "queued ");
                append_chars(&mut out, verb);
                append_chars(&mut out, " request for pid ");
                let d = dec_chars(pid as u64);
                append_vec(&mut out, &d);
            },
            Some(Err(e)) => {
                append_chars(&mut out, "failed to queue ");
                append_chars(&mut out, verb);
                append_chars(&mut out, " request for pid ");
                let d = dec_chars(pid as u64);
                append_vec(&mut out, &d);
                append_chars(&mut out, ": ");
                append_chars(&mut out, e.as_str());
            },
            None => {
                append_chars(&mut out, "backend is not available");
            },
        }
        self.status_line = string_of(&out);
    }

    /// Shows that a signal was sent to a process.
    pub fn process_control_succeeded(&mut self, pid: Pid, operation: &str, signal: i32)
        ensures
            final(self).status_line@ == "process "@ + dec(pid as nat) + ": "@ + operation@
                + " sent successfully (signal "@ + signed_zero_padded(signal as int, 0) + ")"@,
            old(self).wf() ==> final(self).wf(),
            final(self).same_rest_but_status(old(self)),
            final(self).filter_text@ == old(self).filter_text@,
            final(self).selected_pid == old(self).selected_pid,
            final(self).details_expanded == old(self).details_expanded,
            final(self).active_page == old(self).active_page,
            final(self).leaks == old(self).leaks,
            final(self).same_tree(old(self)),
            final(self).same_scans(old(self)),
            final(self).same_sorts(old(self)),
            final(self).same_marks(old(self)),
    {
        let mut out: Vec<char> = Vec::new();
        append_chars(&mut out, "process ");
        let d = dec_chars(pid as u64);
        append_vec(&mut out, &d);
        append_chars(&mut out, ": ");
        append_chars(&mut out, operation);
        append_chars(&mut out, " sent successfully (signal ");
        let sg = fmt_i64_padded(signal as i64, 0);
        append_vec(&mut out, &sg);
        append_chars(&mut out, ")");
        self.status_line = string_of(&out);
    }

    /// Shows that signalling a process failed.
    pub fn process_control_failed(&mut self, pid: Pid, operation: &str, message: &str)
        ensures
            final(self).status_line@ == "process "@ + dec(pid as nat) + ": "@ + operation@
                + " failed: "@ + message@,
            old(self).wf() ==> final(self).wf(),
            final(self).same_rest_but_status(old(self)),
            final(self).filter_text@ == old(self).filter_text@,
            final(self).selected_pid == old(self).selected_pid,
            final(self).details_expanded == old(self).details_expanded,
            final(self).active_page == old(self).active_page,
            final(self).leaks == old(self).leaks,
            final(self).same_tree(old(self)),
            final(self).same_scans(old(self)),
            final(self).same_sorts(old(self)),
            final(self).same_marks(old(self)),
    {
        let mut out: Vec<char> = Vec::new();
        append_chars(&mut out, "process ");
        let d = dec_chars(pid as u64);
        append_vec(&mut out, &d);
        append_chars(&mut out, ": ");
        append_chars(&mut out, operation);
        append_chars(&mut out, " failed: ");
        append_chars(&mut out, message);
        self.status_line = string_of(&out);
    }
}

/// What the backend tells the interface about process control, the scans
/// of processes and itself.
pub enum InterfaceEvent<D, R> {
    /// A signal was sent to a process.
    ProcessControlSuccess { pid: Pid, operation: String, signal: i32 },
    /// Signalling a process failed.
    ProcessControlError { pid: Pid, operation: String, message: String },
    /// Whether allocation-scan captures can run.
    DeepScanAvailability(bool),
    /// A process's allocation-scan capture started.
    DeepScanStarted { pid: Pid },
    /// A progress report of a process's allocation-scan capture.
    DeepScanUpdate { pid: Pid, snapshot_count: usize, report: D },
    /// A process's allocation-scan capture ended.
    DeepScanStopped { pid: Pid },
    /// A process's allocation-scan capture failed.
    DeepScanError { pid: Pid, message: String },
    /// Whether reachability scans can run.
    ReachabilityAvailability(bool),
    /// A process's reachability scan started.
    ReachabilityScanStarted { pid: Pid },
    /// The result of a process's reachability scan.
    ReachabilityScanResult { pid: Pid, report: R },
    /// A process's reachability scan failed.
    ReachabilityScanError { pid: Pid, message: String },
    /// The backend reports an error.
    Error(String),
    /// The backend has stopped.
    Stopped,
}

/// The status line once `event` is applied to an interface showing `status`.
pub open spec fn status_after<D, R>(status: Seq<char>, event: InterfaceEvent<D, R>) -> Seq<char> {
    match event {
        InterfaceEvent::ProcessControlSuccess { pid, operation, signal } => "process "@ + dec(
            pid as nat,
        ) + ": "@ + operation@ + " sent successfully (signal "@ + signed_zero_padded(signal as int, 0)
            + ")"@,
        InterfaceEvent::ProcessControlError { pid, operation, message } => "process "@ + dec(
            pid as nat,
        ) + ": "@ + operation@ + " failed: "@ + message@,
        InterfaceEvent::Error(message) => message@,
        InterfaceEvent::Stopped => "sampler stopped"@,
        _ => status,
    }
}

/// The reachability scans once `event` is applied: a start marks the scan
/// running, a result records it, a failure keeps an earlier result.
pub open spec fn reachability_after<D, R>(
    scans: Map<Pid, ReachabilityScanState<R>>,
    event: InterfaceEvent<D, R>,
) -> Map<Pid, ReachabilityScanState<R>> {
    match event {
        InterfaceEvent::ReachabilityScanStarted { pid } => scans.insert(
            pid,
            ReachabilityScanState { status: DeepScanStatus::Running, report: None, error: None },
        ),
        InterfaceEvent::ReachabilityScanResult { pid, report } => scans.insert(
            pid,
            ReachabilityScanState { status: DeepScanStatus::Done, report: Some(report), error: None },
        ),
        InterfaceEvent::ReachabilityScanError { pid, message } => scans.insert(
            pid,
            ReachabilityScanState {
                status: DeepScanStatus::Failed,
                report: if scans.contains_key(pid) {
                    scans[pid].report
                } else {
                    None
                },
                error: Some(message),
            },
        ),
        _ => scans,
    }
}

/// `after` is what the deep scans become once `event` is applied to
/// `before`; other processes' scans are untouched, and the start time of a
/// scan that starts now is whatever the clock gave.
pub open spec fn deep_scans_after<D, R>(
    before: Map<Pid, DeepScanState<D>>,
    after: Map<Pid, DeepScanState<D>>,
    event: InterfaceEvent<D, R>,
) -> bool {
    match event {
        InterfaceEvent::DeepScanStarted { pid } => {
            &&& after.remove(pid) == before.remove(pid)
            &&& after.contains_key(pid)
            &&& after[pid].status == DeepScanStatus::Running
            &&& after[pid].report is None
            &&& after[pid].error is None
            &&& after[pid].started_at is Some
            &&& after[pid].snapshot_count == 0
        },
        InterfaceEvent::DeepScanUpdate { pid, snapshot_count, report } => {
            &&& after.remove(pid) == before.remove(pid)
            &&& after.contains_key(pid)
            &&& after[pid].status == DeepScanStatus::Running
            &&& after[pid].report == Some(report)
            &&& after[pid].error is None
            &&& after[pid].snapshot_count == snapshot_count
            &&& before.contains_key(pid) ==> after[pid].started_at == before[pid].started_at
            &&& !before.contains_key(pid) ==> after[pid].started_at is Some
        },
        InterfaceEvent::DeepScanStopped { pid } => {
            &&& after.remove(pid) == before.remove(pid)
            &&& after.contains_key(pid) == before.contains_key(pid)
            &&& before.contains_key(pid) ==> after[pid] == DeepScanState {
                status: DeepScanStatus::Off,
                ..before[pid]
            }
        },
        InterfaceEvent::DeepScanError { pid, message } => {
            &&& after.remove(pid) == before.remove(pid)
            &&& after.contains_key(pid)
            &&& after[pid].status == DeepScanStatus::Failed
            &&& after[pid].error == Some(message)
            &&& before.contains_key(pid) ==> {
                &&& after[pid].report == before[pid].report
                &&& after[pid].started_at == before[pid].started_at
                &&& after[pid].snapshot_count == before[pid].snapshot_count
            }
            &&& !before.contains_key(pid) ==> {
                &&& after[pid].report is None
                &&& after[pid].started_at is None
                &&& after[pid].snapshot_count == 0
            }
        },
        _ => after == before,
    }
}

impl<D, R> GuiState<D, R> {
    /// Applies what the backend reports: process control outcomes and
    /// errors go to the status line, a stop shows "sampler stopped", the
    /// availability of the scanners and the progress of scans are recorded.
    pub fn apply_event(&mut self, event: InterfaceEvent<D, R>)
        requires
            old(self).wf(),
        ensures
            final(self).wf(),
            final(self).status_line@ == status_after(old(self).status_line@, event),
            final(self).deep_scan_available == match event {
                InterfaceEvent::DeepScanAvailability(available) => available,
                _ => old(self).deep_scan_available,
            },
            final(self).reachability_available == match event {
                InterfaceEvent::ReachabilityAvailability(available) => available,
                _ => old(self).reachability_available,
            },
            final(self).reachability_by_pid@ == reachability_after(old(self).reachability_by_pid@, event),
            deep_scans_after(old(self).deep_scan_by_pid@, final(self).deep_scan_by_pid@, event),
            final(self).same_tree(old(self)),
            final(self).same_sorts(old(self)),
            final(self).same_marks(old(self)),
            final(self).same_rest_but_status(old(self)),
    {
        match event {
            InterfaceEvent::ProcessControlSuccess { pid, operation, signal } => {
                self.process_control_succeeded(pid, operation.as_str(), signal);
            },
            InterfaceEvent::ProcessControlError { pid, operation, message } => {
                self.process_control_failed(pid, operation.as_str(), message.as_str());
            },
            InterfaceEvent::DeepScanAvailability(available) => {
                self.deep_scan_available = available;
            },
            InterfaceEvent::DeepScanStarted { pid } => {
                self.begin_deep_scan(pid);
            },
            InterfaceEvent::DeepScanUpdate { pid, snapshot_count, report } => {
                self.update_deep_scan(pid, snapshot_count, report);
            },
            InterfaceEvent::DeepScanStopped { pid } => {
                self.stop_deep_scan(pid);
            },
            InterfaceEvent::DeepScanError { pid, message } => {
                self.fail_deep_scan(pid, message);
            },
            InterfaceEvent::ReachabilityAvailability(available) => {
                self.reachability_available = available;
            },
            InterfaceEvent::ReachabilityScanStarted { pid } => {
                self.begin_reachability_scan(pid);
            },
            InterfaceEvent::ReachabilityScanResult { pid, report } => {
                self.complete_reachability_scan(pid, report);
            },
            InterfaceEvent::ReachabilityScanError { pid, message } => {
                self.fail_reachability_scan(pid, message);
            },
            InterfaceEvent::Error(message) => {
                self.status_line = message;
            },
            InterfaceEvent::Stopped => {
                self.status_line = String::from_str("sampler stopped");
                proof {
                    reveal_strlit("sampler stopped");
                }
            },
        }
    }
}

} // verus!
