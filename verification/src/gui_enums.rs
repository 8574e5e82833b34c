use vstd::prelude::*;

verus! {

/// The pages of the interface.
#[derive(Debug, Clone, Copy, PartialEq, Eq, Structural)]
pub enum GuiPage {
    Monitor,
    Leaks,
    Replay,
    Tree,
    System,
    Settings,
}

/// The direction of a table sort.
#[derive(Debug, Clone, Copy, PartialEq, Eq, Structural)]
pub enum SortDirection {
    Asc,
    Desc,
}

/// The opposite of a direction.
pub open spec fn opposite(d: SortDirection) -> SortDirection {
    match d {
        SortDirection::Asc => SortDirection::Desc,
        SortDirection::Desc => SortDirection::Asc,
    }
}

/// Turning a direction around twice gives it back.
pub proof fn lemma_opposite_twice(d: SortDirection)
    ensures
        opposite(opposite(d)) == d,
        opposite(d) != d,
{
}

impl SortDirection {
    /// The opposite direction.
    pub fn toggled(self) -> (r: Self)
        ensures
            r == opposite(self),
    {
        match self {
            SortDirection::Asc => SortDirection::Desc,
            SortDirection::Desc => SortDirection::Asc,
        }
    }
}

/// The columns the process table sorts by.
#[derive(Debug, Clone, Copy, PartialEq, Eq, Structural)]
pub enum MonitorSortKey {
    Pid,
    Name,
    CpuTop,
    CpuRel,
    VirtualMemory,
    PhysicalMemory,
    DiskRead,
    DiskWrite,
}

/// The columns the leak table sorts by.
#[derive(Debug, Clone, Copy, PartialEq, Eq, Structural)]
pub enum LeaksSortKey {
    Pid,
    Name,
    Confidence,
    Anomalous,
    Total,
    Status,
}

/// How strongly the evidence points to a leak.
#[derive(Debug, Clone, Copy, PartialEq, Eq, Structural)]
pub enum ConfidenceBand {
    Unknown,
    Low,
    Medium,
    High,
}

/// How urgently a suspected leak should be looked at.
#[derive(Debug, Clone, Copy, PartialEq, Eq, Structural, PartialOrd, Ord)]
pub enum TriageSeverity {
    Low,
    Medium,
    High,
}

/// The state of a scan of a process.
#[derive(Debug, Clone, Copy, PartialEq, Eq, Structural)]
pub enum DeepScanStatus {
    Off,
    Running,
    Done,
    Failed,
}

} // verus!
