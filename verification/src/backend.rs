//! The decisions of the sampling backend: what each command from the
//! interface leads to, which scans are running, what a snapshot samples,
//! and how the output of an allocation capture is cut into snapshots.
//!
//! The backend's caller performs each step (a signal, a database query, a
//! scan) and reports back when a scan starts or ends.

use std::collections::HashSet;

use vstd::prelude::*;

use crate::dto::Pid;
use crate::gui_enums::GuiPage;
use crate::replay::ReplayScanMarker;
use crate::text::{append_chars, append_vec, chars_of, dec, dec_chars, string_of, trim, trim_bounds};

verus! {

broadcast use vstd::std_specs::hash::group_hash_axioms;

/// The number of sessions or names a query returns at most.
pub const QUERY_LIMIT: usize = 20;

/// A request from the interface to the backend.
#[derive(Debug, Clone)]
pub enum BackendCommand {
    TerminateProcess(Pid),
    ForceKillProcess(Pid),
    FetchReplayMemoryByName { name: String, start_ms: i64, end_ms: i64 },
    FetchReplayScansByName { name: String, start_ms: i64, end_ms: i64 },
    FetchLeakedBlocksForScan { scan_id: i64 },
    FetchReplayAllocationByName { name: String, start_ms: i64, end_ms: i64 },
    PersistAllocationSnapshot {
        pid: Pid,
        name: String,
        collected_at_ms: i64,
        snapshot_count: u64,
        total_outstanding_bytes: u64,
    },
    SearchProcessNames(String),
    /// An empty filter lists all sessions; another lists the sessions in
    /// which the named process ran.
    FetchSessionsList { name_filter: String },
    SetActivePage(GuiPage),
    StartContinuousScan { pid: Pid },
    StopContinuousScan { pid: Pid },
    ReachabilityScan { pid: Pid },
    ResetHistory,
}

/// The signal a process control request sends.
#[derive(Debug, Clone, Copy, PartialEq, Eq, Structural)]
pub enum ProcessSignal {
    Terminate,
    Kill,
}

/// What the backend does for a command.
#[derive(Debug, Clone)]
pub enum BackendStep {
    /// Signal the process.
    Signal { pid: Pid, signal: ProcessSignal },
    /// Read the memory history of a process name over a range.
    QueryMemoryHistory { name: String, start_ms: i64, end_ms: i64 },
    /// Read the reachability scans of a process name over a range.
    QueryScans { name: String, start_ms: i64, end_ms: i64 },
    /// Read the leaked blocks of a scan.
    QueryLeakedBlocks { scan_id: i64 },
    /// Read the allocation snapshots of a process name over a range.
    QueryAllocation { name: String, start_ms: i64, end_ms: i64 },
    /// Write one allocation snapshot.
    PersistAllocationSnapshot {
        pid: Pid,
        name: String,
        collected_at_ms: i64,
        snapshot_count: u64,
        total_outstanding_bytes: u64,
    },
    /// List stored sessions: all of them, or at most `limit` of those in
    /// which the named process ran.
    QuerySessions { name: Option<String>, limit: Option<usize> },
    /// Look up process names starting with a prefix.
    SearchNames { prefix: String, limit: usize },
    /// Start a reachability scan of the process.
    StartReachabilityScan { pid: Pid },
    /// Start a continuous allocation capture of the process.
    StartCapture { pid: Pid },
    /// Stop the process's allocation capture, then report it stopped.
    StopCapture { pid: Pid },
    /// Empty the history database.
    ResetHistory,
    /// Report an error to the interface.
    ReportError(String),
    /// Report that a reachability scan cannot run.
    ReportReachabilityError { pid: Pid, message: String },
    /// Report that an allocation capture cannot run.
    ReportCaptureError { pid: Pid, message: String },
    /// Nothing to do.
    Nothing,
}

/// What the backend knows between commands.
pub struct BackendPlanner {
    pub active_page: GuiPage,
    pub db_available: bool,
    pub reachability_available: bool,
    pub profiler_available: bool,
    pub reach_in_flight: HashSet<Pid>,
    pub capturing: HashSet<Pid>,
}

/// The message for a query with no database.
pub open spec fn no_db_message() -> Seq<char> {
    "db not available"@
}

/// The message for a reachability scan that cannot run.
pub open spec fn no_reachability_message() -> Seq<char> {
    "reachability scan unavailable (needs root + gcore)"@
}

/// The message for an allocation capture that cannot run.
pub open spec fn no_capture_message() -> Seq<char> {
    "allocation-scan capture unavailable (needs root + bpftrace)"@
}

impl BackendPlanner {
    /// A backend on the monitor page with nothing running.
    pub fn new(db_available: bool, reachability_available: bool, profiler_available: bool) -> (r: Self)
        ensures
            r.active_page == GuiPage::Monitor,
            r.db_available == db_available,
            r.reachability_available == reachability_available,
            r.profiler_available == profiler_available,
            r.reach_in_flight@.is_empty(),
            r.capturing@.is_empty(),
    {
        BackendPlanner {
            active_page: GuiPage::Monitor,
            db_available,
            reachability_available,
            profiler_available,
            reach_in_flight: HashSet::new(),
            capturing: HashSet::new(),
        }
    }

    /// Threads are sampled only while the monitor page is shown.
    pub fn samples_threads(&self) -> (r: bool)
        ensures
            r == (self.active_page == GuiPage::Monitor),
    {
        self.active_page == GuiPage::Monitor
    }

    /// What to do for a command. A reachability scan already running for
    /// the process, or a capture already running, is not started again;
    /// a scan that cannot run is reported.
    pub fn plan(&mut self, command: BackendCommand) -> (r: BackendStep)
        ensures
            match command {
                BackendCommand::TerminateProcess(pid) => r == (BackendStep::Signal {
                    pid,
                    signal: ProcessSignal::Terminate,
                }),
                BackendCommand::ForceKillProcess(pid) => r == (BackendStep::Signal {
                    pid,
                    signal: ProcessSignal::Kill,
                }),
                BackendCommand::FetchReplayMemoryByName { name, start_ms, end_ms } => if old(
                    self,
                ).db_available {
                    r == (BackendStep::QueryMemoryHistory { name, start_ms, end_ms })
                } else {
                    r matches BackendStep::ReportError(m) && m@ == no_db_message()
                },
                BackendCommand::FetchReplayScansByName { name, start_ms, end_ms } => if old(
                    self,
                ).db_available {
                    r == (BackendStep::QueryScans { name, start_ms, end_ms })
                } else {
                    r matches BackendStep::ReportError(m) && m@ == no_db_message()
                },
                BackendCommand::FetchLeakedBlocksForScan { scan_id } => if old(self).db_available {
                    r == (BackendStep::QueryLeakedBlocks { scan_id })
                } else {
                    r matches BackendStep::ReportError(m) && m@ == no_db_message()
                },
                BackendCommand::FetchReplayAllocationByName { name, start_ms, end_ms } => if old(
                    self,
                ).db_available {
                    r == (BackendStep::QueryAllocation { name, start_ms, end_ms })
                } else {
                    r matches BackendStep::ReportError(m) && m@ == no_db_message()
                },
                BackendCommand::PersistAllocationSnapshot {
                    pid,
                    name,
                    collected_at_ms,
                    snapshot_count,
                    total_outstanding_bytes,
                } => r == (BackendStep::PersistAllocationSnapshot {
                    pid,
                    name,
                    collected_at_ms,
                    snapshot_count,
                    total_outstanding_bytes,
                }),
                BackendCommand::SearchProcessNames(prefix) => if old(self).db_available {
                    r == (BackendStep::SearchNames { prefix, limit: QUERY_LIMIT })
                } else {
                    r matches BackendStep::ReportError(m) && m@ == no_db_message()
                },
                BackendCommand::FetchSessionsList { name_filter } => if old(self).db_available {
                    &&& r matches BackendStep::QuerySessions { name, limit }
                    &&& name_filter@.len() == 0 ==> name is None && limit is None
                    &&& name_filter@.len() > 0 ==> (name matches Some(n) && n@ == name_filter@)
                        && limit == Some(QUERY_LIMIT)
                } else {
                    r matches BackendStep::ReportError(m) && m@ == no_db_message()
                },
                BackendCommand::SetActivePage(_) => r matches BackendStep::Nothing,
                BackendCommand::StartContinuousScan { pid } => match capture_decision(
                    old(self).profiler_available,
                    old(self).capturing@,
                    pid,
                ) {
                    ScanDecision::AlreadyRunning => r matches BackendStep::Nothing,
                    ScanDecision::Unavailable => r matches BackendStep::ReportCaptureError {
                        pid: p,
                        message,
                    } && p == pid && message@ == no_capture_message(),
                    ScanDecision::Start => r == (BackendStep::StartCapture { pid }),
                },
                BackendCommand::StopContinuousScan { pid } => r == (BackendStep::StopCapture {
                    pid,
                }),
                BackendCommand::ReachabilityScan { pid } => match reach_decision(
                    old(self).reachability_available,
                    old(self).reach_in_flight@,
                    pid,
                ) {
                    ScanDecision::Unavailable => r matches BackendStep::ReportReachabilityError {
                        pid: p,
                        message,
                    } && p == pid && message@ == no_reachability_message(),
                    ScanDecision::AlreadyRunning => r matches BackendStep::Nothing,
                    ScanDecision::Start => r == (BackendStep::StartReachabilityScan { pid }),
                },
                BackendCommand::ResetHistory => r matches BackendStep::ResetHistory,
            },
            final(self).active_page == match command {
                BackendCommand::SetActivePage(page) => page,
                _ => old(self).active_page,
            },
            final(self).reach_in_flight@ == match command {
                BackendCommand::ReachabilityScan { pid } => in_flight_after_request(
                    old(self).reachability_available,
                    old(self).reach_in_flight@,
                    pid,
                ),
                _ => old(self).reach_in_flight@,
            },
            final(self).capturing@ == match command {
                BackendCommand::StopContinuousScan { pid } => old(self).capturing@.remove(pid),
                _ => old(self).capturing@,
            },
            final(self).db_available == old(self).db_available,
            final(self).reachability_available == old(self).reachability_available,
            final(self).profiler_available == old(self).profiler_available,
    {
        match command {
            BackendCommand::TerminateProcess(pid) => BackendStep::Signal {
                pid,
                signal: ProcessSignal::Terminate,
            },
            BackendCommand::ForceKillProcess(pid) => BackendStep::Signal {
                pid,
                signal: ProcessSignal::Kill,
            },
            BackendCommand::FetchReplayMemoryByName { name, start_ms, end_ms } => {
                if !self.db_available {
                    return BackendStep::ReportError(String::from_str("db not available"));
                }
                BackendStep::QueryMemoryHistory { name, start_ms, end_ms }
            },
            BackendCommand::FetchReplayScansByName { name, start_ms, end_ms } => {
                if !self.db_available {
                    return BackendStep::ReportError(String::from_str("db not available"));
                }
                BackendStep::QueryScans { name, start_ms, end_ms }
            },
            BackendCommand::FetchLeakedBlocksForScan { scan_id } => {
                if !self.db_available {
                    return BackendStep::ReportError(String::from_str("db not available"));
                }
                BackendStep::QueryLeakedBlocks { scan_id }
            },
            BackendCommand::FetchReplayAllocationByName { name, start_ms, end_ms } => {
                if !self.db_available {
                    return BackendStep::ReportError(String::from_str("db not available"));
                }
                BackendStep::QueryAllocation { name, start_ms, end_ms }
            },
            BackendCommand::PersistAllocationSnapshot {
                pid,
                name,
                collected_at_ms,
                snapshot_count,
                total_outstanding_bytes,
            } => BackendStep::PersistAllocationSnapshot {
                pid,
                name,
                collected_at_ms,
                snapshot_count,
                total_outstanding_bytes,
            },
            BackendCommand::SearchProcessNames(prefix) => {
                if !self.db_available {
                    return BackendStep::ReportError(String::from_str("db not available"));
                }
                BackendStep::SearchNames { prefix, limit: QUERY_LIMIT }
            },
            BackendCommand::FetchSessionsList { name_filter } => {
                if !self.db_available {
                    return BackendStep::ReportError(String::from_str("db not available"));
                }
                if name_filter.unicode_len() == 0 {
                    BackendStep::QuerySessions { name: None, limit: None }
                } else {
                    BackendStep::QuerySessions { name: Some(name_filter), limit: Some(QUERY_LIMIT) }
                }
            },
            BackendCommand::SetActivePage(page) => {
                self.active_page = page;
                BackendStep::Nothing
            },
            BackendCommand::StartContinuousScan { pid } => {
                if self.capturing.contains(&pid) {
                    return BackendStep::Nothing;
                }
                if !self.profiler_available {
                    return BackendStep::ReportCaptureError {
                        pid,
                        message: String::from_str(
                            "allocation-scan capture unavailable (needs root + bpftrace)",
                        ),
                    };
                }
                BackendStep::StartCapture { pid }
            },
            BackendCommand::StopContinuousScan { pid } => {
                self.capturing.remove(&pid);
                BackendStep::StopCapture { pid }
            },
            BackendCommand::ReachabilityScan { pid } => {
                if !self.reachability_available {
                    return BackendStep::ReportReachabilityError {
                        pid,
                        message: String::from_str(
                            "reachability scan unavailable (needs root + gcore)",
                        ),
                    };
                }
                if !self.reach_in_flight.insert(pid) {
                    return BackendStep::Nothing;
                }
                BackendStep::StartReachabilityScan { pid }
            },
            BackendCommand::ResetHistory => BackendStep::ResetHistory,
        }
    }

    /// A capture started: later starts for the process do nothing.
    pub fn capture_started(&mut self, pid: Pid)
        ensures
            final(self).capturing@ == old(self).capturing@.insert(pid),
            final(self).reach_in_flight@ == old(self).reach_in_flight@,
            final(self).active_page == old(self).active_page,
            final(self).db_available == old(self).db_available,
            final(self).reachability_available == old(self).reachability_available,
            final(self).profiler_available == old(self).profiler_available,
    {
        self.capturing.insert(pid);
    }

    /// A capture ended on its own: the process can be captured again.
    pub fn capture_finished(&mut self, pid: Pid)
        ensures
            final(self).capturing@ == old(self).capturing@.remove(pid),
            final(self).reach_in_flight@ == old(self).reach_in_flight@,
            final(self).active_page == old(self).active_page,
            final(self).db_available == old(self).db_available,
            final(self).reachability_available == old(self).reachability_available,
            final(self).profiler_available == old(self).profiler_available,
    {
        self.capturing.remove(&pid);
    }

    /// A reachability scan finished: the process can be scanned again.
    pub fn reachability_finished(&mut self, pid: Pid)
        ensures
            final(self).reach_in_flight@ == old(self).reach_in_flight@.remove(pid),
            final(self).capturing@ == old(self).capturing@,
            final(self).active_page == old(self).active_page,
            final(self).db_available == old(self).db_available,
            final(self).reachability_available == old(self).reachability_available,
            final(self).profiler_available == old(self).profiler_available,
    {
        self.reach_in_flight.remove(&pid);
    }
}

/// What a request for a scan of a process leads to.
#[derive(Debug, Clone, Copy, PartialEq, Eq, Structural)]
pub enum ScanDecision {
    /// The scan cannot run here.
    Unavailable,
    /// A scan of the process is running; the request waits for nothing.
    AlreadyRunning,
    /// The scan starts.
    Start,
}

/// A reachability scan request: unavailable scans are reported, a process
/// already being scanned is not scanned twice.
pub open spec fn reach_decision(available: bool, in_flight: Set<Pid>, pid: Pid) -> ScanDecision {
    if !available {
        ScanDecision::Unavailable
    } else if in_flight.contains(pid) {
        ScanDecision::AlreadyRunning
    } else {
        ScanDecision::Start
    }
}

/// The processes being scanned after a reachability scan request.
pub open spec fn in_flight_after_request(available: bool, in_flight: Set<Pid>, pid: Pid) -> Set<Pid> {
    if available {
        in_flight.insert(pid)
    } else {
        in_flight
    }
}

/// An allocation capture request: a process already captured is left
/// alone, unavailable captures are reported.
pub open spec fn capture_decision(available: bool, capturing: Set<Pid>, pid: Pid) -> ScanDecision {
    if capturing.contains(pid) {
        ScanDecision::AlreadyRunning
    } else if !available {
        ScanDecision::Unavailable
    } else {
        ScanDecision::Start
    }
}

/// A scan is never started twice at once: once a reachability scan of a
/// process is requested, another request for it waits until the scan
/// finishes, after which a request starts it again.
pub proof fn lemma_second_scan_request_waits(in_flight: Set<Pid>, pid: Pid)
    ensures
        reach_decision(true, in_flight_after_request(true, in_flight, pid), pid)
            == ScanDecision::AlreadyRunning,
        reach_decision(true, in_flight_after_request(true, in_flight, pid).remove(pid), pid)
            == ScanDecision::Start,
{
}

/// Once a capture of a process has started, another start request for it
/// does nothing until the capture stops or ends, after which it starts
/// again.
pub proof fn lemma_second_capture_request_waits(capturing: Set<Pid>, pid: Pid)
    ensures
        capture_decision(true, capturing.insert(pid), pid) == ScanDecision::AlreadyRunning,
        capture_decision(true, capturing.insert(pid).remove(pid), pid) == ScanDecision::Start,
{
}

/// The name shown for a user id: the passwd name, or the id itself.
pub open spec fn username_text(uid: u32, names: Map<u32, String>) -> Seq<char> {
    if names.contains_key(uid) {
        names[uid]@
    } else {
        dec(uid as nat)
    }
}

/// The name shown for a user id: the passwd name, or the id itself.
pub fn username_for(uid: u32, names: &std::collections::HashMap<u32, String>) -> (r: String)
    ensures
        r@ == username_text(uid, names@),
{
    match names.get(&uid) {
        Some(n) => n.clone(),
        None => {
            let d = dec_chars(uid as u64);
            string_of(&d)
        },
    }
}

/// The lost bytes of a stored reachability scan: definitely, indirectly and
/// possibly lost together.
pub fn scan_marker(
    id: i64,
    pid: Pid,
    started_at_ms: i64,
    total_blocks: i64,
    definitely_lost_bytes: u64,
    indirectly_lost_bytes: u64,
    possibly_lost_bytes: u64,
) -> (r: ReplayScanMarker)
    requires
        definitely_lost_bytes + indirectly_lost_bytes + possibly_lost_bytes <= u64::MAX,
    ensures
        r == (ReplayScanMarker {
            id,
            pid,
            started_at_ms,
            total_blocks,
            total_lost_bytes: (definitely_lost_bytes + indirectly_lost_bytes + possibly_lost_bytes)
                as u64,
            definitely_lost_bytes,
            possibly_lost_bytes,
            indirectly_lost_bytes,
        }),
{
    ReplayScanMarker {
        id,
        pid,
        started_at_ms,
        total_blocks,
        total_lost_bytes: definitely_lost_bytes + indirectly_lost_bytes + possibly_lost_bytes,
        definitely_lost_bytes,
        possibly_lost_bytes,
        indirectly_lost_bytes,
    }
}

/// The line that ends one snapshot of an allocation capture.
pub open spec fn end_marker() -> Seq<char> {
    "--- END_SNAPSHOT ---"@
}

/// Collects the output of an allocation capture line by line and hands out
/// each snapshot, its lines each followed by a newline, when its end line
/// arrives.
pub struct SnapshotFramer {
    pub chunk: Vec<char>,
}

impl SnapshotFramer {
    pub fn new() -> (r: Self)
        ensures
            r.chunk@.len() == 0,
    {
        SnapshotFramer { chunk: Vec::new() }
    }

    /// Takes one line; at a line that reads as the end marker once trimmed,
    /// the snapshot so far (that line included) comes out and collecting
    /// starts over.
    pub fn push_line(&mut self, line: &str) -> (r: Option<String>)
        ensures
            trim(line@) == end_marker() ==> {
                &&& r matches Some(c) && c@ == old(self).chunk@ + line@ + seq!['\n']
                &&& final(self).chunk@.len() == 0
            },
            trim(line@) != end_marker() ==> {
                &&& r is None
                &&& final(self).chunk@ == old(self).chunk@ + line@ + seq!['\n']
            },
    {
        let l = chars_of(line);
        append_vec(&mut self.chunk, &l);
        self.chunk.push('\n');
        let (a, b) = trim_bounds(&l);
        let marker = chars_of("--- END_SNAPSHOT ---");
        let mut is_end = b - a == marker.len();
        let mut i: usize = 0;
        while is_end && i < marker.len()
            invariant
                a <= b <= l@.len(),
                marker@ == end_marker(),
                is_end ==> b - a == marker@.len(),
                i <= marker@.len(),
                is_end ==> forall|k: int| 0 <= k < i ==> l@[a + k] == marker@[k],
                !is_end ==> l@.subrange(a as int, b as int) != marker@,
            decreases marker@.len() - i, if is_end { 1int } else { 0int },
        {
            if l[a + i] != marker[i] {
                assert(l@.subrange(a as int, b as int)[i as int] != marker@[i as int]);
                is_end = false;
            } else {
                i = i + 1;
            }
        }
        if is_end {
            assert(l@.subrange(a as int, b as int) =~= marker@);
        }
        if is_end {
            let mut done: Vec<char> = Vec::new();
            std::mem::swap(&mut done, &mut self.chunk);
            Some(string_of(&done))
        } else {
            None
        }
    }
}

/// A summary row is written for every `every`-th snapshot of a capture.
pub fn should_persist_snapshot(snapshot_count: usize, every: usize) -> (r: bool)
    requires
        every > 0,
    ensures
        r == (snapshot_count > 0 && snapshot_count % every == 0),
{
    snapshot_count > 0 && snapshot_count % every == 0
}

/// Where the sampling loop stands.
#[derive(Debug, Clone, Copy, PartialEq, Eq, Structural)]
pub enum LoopPhase {
    /// The monitor is being set up.
    Starting,
    /// A sample is being taken and handed to the interface.
    Sampling,
    /// The loop waits out the sample interval, or for a shutdown request.
    Waiting,
    /// The loop has ended; nothing more happens.
    Stopped,
}

/// How the wait between two samples ended.
#[derive(Debug, Clone, Copy, PartialEq, Eq, Structural)]
pub enum WaitOutcome {
    /// The interface asked the backend to shut down.
    ShutdownRequested,
    /// The sample interval passed.
    TimedOut,
    /// The interface side of the shutdown channel is gone.
    Disconnected,
}

/// What the caller of the loop reports after performing the current phase.
#[derive(Debug, Clone)]
pub enum LoopEvent {
    /// Setting up the monitor failed, with this description.
    InitFailed(String),
    /// The monitor is set up; the two scanners are usable or not.
    Initialized { deep_scan_available: bool, reachability_available: bool },
    /// A sample was taken; `delivered` says whether the interface received it.
    Sampled { delivered: bool },
    /// Taking a sample failed, with this description.
    SampleFailed(String),
    /// The wait ended so.
    WaitEnded(WaitOutcome),
}

/// What the caller of the loop does next, in order.
#[derive(Debug, Clone)]
pub enum LoopAction {
    /// Send the interface this error text.
    ReportError(String),
    /// Tell the interface whether allocation-scan captures can run.
    ReportDeepScanAvailability(bool),
    /// Tell the interface whether reachability scans can run.
    ReportReachabilityAvailability(bool),
    /// Flush what the storage pipeline still holds.
    FlushStorage,
    /// End the running allocation-scan captures.
    DropCaptures,
    /// Tell the interface that the backend has stopped.
    ReportStopped,
}

/// What an error while setting up the monitor is reported with.
pub open spec fn init_failure_prefix() -> Seq<char> {
    "failed to initialize monitor: "@
}

/// What an error while sampling is reported with.
pub open spec fn sampling_failure_prefix() -> Seq<char> {
    "sampling failed: "@
}

/// The phase that follows `phase` once `event` is reported.
pub open spec fn next_phase(phase: LoopPhase, event: LoopEvent) -> LoopPhase {
    match phase {
        LoopPhase::Starting => match event {
            LoopEvent::InitFailed(_) => LoopPhase::Stopped,
            LoopEvent::Initialized { .. } => LoopPhase::Sampling,
            _ => phase,
        },
        LoopPhase::Sampling => match event {
            LoopEvent::Sampled { delivered } => if delivered {
                LoopPhase::Waiting
            } else {
                LoopPhase::Stopped
            },
            LoopEvent::SampleFailed(_) => LoopPhase::Waiting,
            _ => phase,
        },
        LoopPhase::Waiting => match event {
            LoopEvent::WaitEnded(outcome) => match outcome {
                WaitOutcome::TimedOut => LoopPhase::Sampling,
                _ => LoopPhase::Stopped,
            },
            _ => phase,
        },
        LoopPhase::Stopped => phase,
    }
}

/// The wind-down of the loop: flush the storage, end the captures, then
/// tell the interface.
pub open spec fn wind_down() -> Seq<LoopAction> {
    seq![LoopAction::FlushStorage, LoopAction::DropCaptures, LoopAction::ReportStopped]
}

/// `out` is what the loop does when `event` is reported in `phase`.
pub open spec fn step_actions_ok(phase: LoopPhase, event: LoopEvent, out: Seq<LoopAction>) -> bool {
    match phase {
        LoopPhase::Starting => match event {
            LoopEvent::InitFailed(m) => {
                &&& out.len() == 2
                &&& (out[0] matches LoopAction::ReportError(t) && t@ == init_failure_prefix() + m@)
                &&& out[1] is ReportStopped
            },
            LoopEvent::Initialized { deep_scan_available, reachability_available } => out == seq![
                LoopAction::ReportDeepScanAvailability(deep_scan_available),
                LoopAction::ReportReachabilityAvailability(reachability_available),
            ],
            _ => out.len() == 0,
        },
        LoopPhase::Sampling => match event {
            LoopEvent::Sampled { delivered } => if delivered {
                out.len() == 0
            } else {
                out == wind_down()
            },
            LoopEvent::SampleFailed(m) => {
                &&& out.len() == 1
                &&& (out[0] matches LoopAction::ReportError(t) && t@ == sampling_failure_prefix() + m@)
            },
            _ => out.len() == 0,
        },
        LoopPhase::Waiting => match event {
            LoopEvent::WaitEnded(outcome) => match outcome {
                WaitOutcome::TimedOut => out.len() == 0,
                _ => out == wind_down(),
            },
            _ => out.len() == 0,
        },
        LoopPhase::Stopped => out.len() == 0,
    }
}

/// `prefix` followed by `rest`.
fn prefixed_text(prefix: &str, rest: &str) -> (r: String)
    ensures
        r@ == prefix@ + rest@,
{
    let mut v = chars_of(prefix);
    append_chars(&mut v, rest);
    string_of(&v)
}

/// One step of the sampling loop: the phase that follows `event` in `phase`,
/// and what the caller does on the way, in order. A failed start is
/// reported and ends the loop; a sample the interface no longer receives,
/// a shutdown request or a lost shutdown channel ends it after flushing the
/// storage and ending the captures; once stopped, nothing happens.
pub fn backend_loop_step(phase: LoopPhase, event: LoopEvent) -> (r: (LoopPhase, Vec<LoopAction>))
    ensures
        r.0 == next_phase(phase, event),
        step_actions_ok(phase, event, r.1@),
        loop_step(phase, r.0, event, r.1@),
{
    reveal(loop_step);
    let mut out: Vec<LoopAction> = Vec::new();
    match phase {
        LoopPhase::Starting => match event {
            LoopEvent::InitFailed(m) => {
                out.push(LoopAction::ReportError(prefixed_text("failed to initialize monitor: ", m.as_str())));
                out.push(LoopAction::ReportStopped);
                (LoopPhase::Stopped, out)
            },
            LoopEvent::Initialized { deep_scan_available, reachability_available } => {
                out.push(LoopAction::ReportDeepScanAvailability(deep_scan_available));
                out.push(LoopAction::ReportReachabilityAvailability(reachability_available));
                proof {
                    assert(out@ =~= seq![
                        LoopAction::ReportDeepScanAvailability(deep_scan_available),
                        LoopAction::ReportReachabilityAvailability(reachability_available),
                    ]);
                }
                (LoopPhase::Sampling, out)
            },
            _ => (phase, out),
        },
        LoopPhase::Sampling => match event {
            LoopEvent::Sampled { delivered } => if delivered {
                (LoopPhase::Waiting, out)
            } else {
                push_wind_down(&mut out);
                (LoopPhase::Stopped, out)
            },
            LoopEvent::SampleFailed(m) => {
                out.push(LoopAction::ReportError(prefixed_text("sampling failed: ", m.as_str())));
                (LoopPhase::Waiting, out)
            },
            _ => (phase, out),
        },
        LoopPhase::Waiting => match event {
            LoopEvent::WaitEnded(outcome) => match outcome {
                WaitOutcome::TimedOut => (LoopPhase::Sampling, out),
                _ => {
                    push_wind_down(&mut out);
                    (LoopPhase::Stopped, out)
                },
            },
            _ => (phase, out),
        },
        LoopPhase::Stopped => (phase, out),
    }
}

/// Appends the wind-down of the loop to `out`.
fn push_wind_down(out: &mut Vec<LoopAction>)
    ensures
        final(out)@ == old(out)@ + wind_down(),
{
    let ghost before = out@;
    out.push(LoopAction::FlushStorage);
    out.push(LoopAction::DropCaptures);
    out.push(LoopAction::ReportStopped);
    assert(out@ =~= before + wind_down());
}

/// How many of `out` tell the interface that the backend has stopped.
pub open spec fn stop_reports(out: Seq<LoopAction>) -> nat
    decreases out.len(),
{
    if out.len() == 0 {
        0
    } else {
        stop_reports(out.drop_last()) + if out.last() is ReportStopped {
            1nat
        } else {
            0nat
        }
    }
}

/// How many stop reports a whole run of the loop sends.
pub open spec fn run_stop_reports(outs: Seq<Seq<LoopAction>>) -> nat
    decreases outs.len(),
{
    if outs.len() == 0 {
        0
    } else {
        run_stop_reports(outs.drop_last()) + stop_reports(outs.last())
    }
}

/// Reporting `event` in `phase` leads to `next`, with the actions `out`
/// that `backend_loop_step` gives.
#[verifier::opaque]
pub open spec fn loop_step(phase: LoopPhase, next: LoopPhase, event: LoopEvent, out: Seq<LoopAction>) -> bool {
    next == next_phase(phase, event) && step_actions_ok(phase, event, out)
}

/// `phases`, `events` and `outs` are a run of the loop from its start:
/// each event reported in a phase leads to the next phase, with the
/// actions that `backend_loop_step` gives.
pub open spec fn is_loop_run(
    phases: Seq<LoopPhase>,
    events: Seq<LoopEvent>,
    outs: Seq<Seq<LoopAction>>,
) -> bool {
    &&& phases.len() == events.len() + 1
    &&& outs.len() == events.len()
    &&& phases[0] == LoopPhase::Starting
    &&& forall|i: int|
        #![trigger events[i]]
        0 <= i < events.len() ==> loop_step(phases[i], phases[i + 1], events[i], outs[i])
}

/// What one step gives: a stop report exactly when it ends the loop, and
/// nothing at all once stopped.
proof fn lemma_loop_step_facts(phase: LoopPhase, next: LoopPhase, event: LoopEvent, out: Seq<LoopAction>)
    requires
        loop_step(phase, next, event, out),
    ensures
        stop_reports(out) == (if phase != LoopPhase::Stopped && next == LoopPhase::Stopped {
            1nat
        } else {
            0nat
        }),
        phase == LoopPhase::Stopped ==> next == LoopPhase::Stopped && out.len() == 0,
{
    reveal(loop_step);
    reveal_with_fuel(stop_reports, 4);
    if out.len() == 3 {
        assert(out.drop_last().drop_last().drop_last() =~= Seq::<LoopAction>::empty());
    } else if out.len() == 2 {
        assert(out.drop_last().drop_last() =~= Seq::<LoopAction>::empty());
    } else if out.len() == 1 {
        assert(out.drop_last() =~= Seq::<LoopAction>::empty());
    }
}

/// Over the steps of a run, the stop reports sent add up to one if the run
/// ended the loop, and to none otherwise.
proof fn lemma_loop_stop_count(phases: Seq<LoopPhase>, events: Seq<LoopEvent>, outs: Seq<Seq<LoopAction>>)
    requires
        is_loop_run(phases, events, outs),
    ensures
        run_stop_reports(outs) == (if phases.last() == LoopPhase::Stopped {
            1nat
        } else {
            0nat
        }),
    decreases events.len(),
{
    let n: int = events.len() as int;
    if n > 0 {
        let ph = phases.drop_last();
        let ev = events.drop_last();
        let os = outs.drop_last();
        assert forall|i: int| #![trigger ev[i]] 0 <= i < ev.len() implies loop_step(ph[i], ph[i + 1], ev[i], os[i]) by {
            assert(events[i] == ev[i]);
        }
        lemma_loop_stop_count(ph, ev, os);
        assert(events[n - 1] == events[n - 1]);
        lemma_loop_step_facts(phases[n - 1], phases[n], events[n - 1], outs[n - 1]);
        assert(ph.last() == phases[n - 1]);
    }
}

/// In a run, a stopped phase is followed by stopped phases only, with no
/// action on the way.
proof fn lemma_loop_stays_stopped(
    phases: Seq<LoopPhase>,
    events: Seq<LoopEvent>,
    outs: Seq<Seq<LoopAction>>,
    i: int,
    j: int,
)
    requires
        is_loop_run(phases, events, outs),
        0 <= i <= j < phases.len(),
        phases[i] == LoopPhase::Stopped,
    ensures
        phases[j] == LoopPhase::Stopped,
        j < outs.len() ==> outs[j].len() == 0,
    decreases j - i,
{
    if j > i {
        lemma_loop_stays_stopped(phases, events, outs, i, j - 1);
        assert(events[j - 1] == events[j - 1]);
        lemma_loop_step_facts(phases[j - 1], phases[j], events[j - 1], outs[j - 1]);
    }
    if j < outs.len() {
        assert(events[j] == events[j]);
        lemma_loop_step_facts(phases[j], phases[j + 1], events[j], outs[j]);
    }
}

/// Over any run of the sampling loop, the interface is told exactly once
/// that the backend stopped if the run ended the loop, and never otherwise;
/// once stopped, the loop stays stopped and does nothing more.
pub proof fn lemma_loop_reports_stop_once(
    phases: Seq<LoopPhase>,
    events: Seq<LoopEvent>,
    outs: Seq<Seq<LoopAction>>,
)
    requires
        is_loop_run(phases, events, outs),
    ensures
        run_stop_reports(outs) == (if phases.last() == LoopPhase::Stopped {
            1nat
        } else {
            0nat
        }),
        forall|i: int, j: int|
            #![trigger phases[i], phases[j]]
            0 <= i <= j < phases.len() && phases[i] == LoopPhase::Stopped ==> phases[j]
                == LoopPhase::Stopped && (j < outs.len() ==> outs[j].len() == 0),
{
    lemma_loop_stop_count(phases, events, outs);
    assert forall|i: int, j: int|
        #![trigger phases[i], phases[j]]
        0 <= i <= j < phases.len() && phases[i] == LoopPhase::Stopped implies phases[j]
            == LoopPhase::Stopped && (j < outs.len() ==> outs[j].len() == 0) by {
        lemma_loop_stays_stopped(phases, events, outs, i, j);
    }
}

} // verus!
