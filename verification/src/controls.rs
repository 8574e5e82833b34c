//! What the replay controls and the leak report's action buttons show and
//! allow: when typing a process name starts a name search, which buttons
//! can be pressed, and their labels.

use vstd::prelude::*;

use crate::gui_enums::DeepScanStatus;
use crate::text::{trim, trim_chars};

verus! {

/// How many bytes UTF-8 takes for `c`.
pub open spec fn utf8_width(c: char) -> nat {
    let u = c as u32;
    if u < 0x80 {
        1
    } else if u < 0x800 {
        2
    } else if u < 0x10000 {
        3
    } else {
        4
    }
}

/// How many bytes UTF-8 takes for `s`, as `str::len` counts them.
pub open spec fn utf8_len(s: Seq<char>) -> nat
    decreases s.len(),
{
    if s.len() == 0 {
        0
    } else {
        utf8_width(s[0]) + utf8_len(s.drop_first())
    }
}

/// A text takes at least one byte per character.
proof fn lemma_utf8_len_at_least_chars(s: Seq<char>)
    ensures
        utf8_len(s) >= s.len(),
    decreases s.len(),
{
    if s.len() > 0 {
        lemma_utf8_len_at_least_chars(s.drop_first());
    }
}

/// Whether typing `value` into the process-name field starts a search for
/// matching names: it does once the trimmed text is two bytes long.
pub fn should_search_names(value: &str) -> (r: bool)
    ensures
        r == (utf8_len(trim(value@)) >= 2),
{
    let t = trim_chars(value);
    proof {
        lemma_utf8_len_at_least_chars(t@);
        if t@.len() == 1 {
            assert(t@.drop_first() =~= Seq::<char>::empty());
            assert(utf8_len(t@.drop_first()) == 0);
            assert(utf8_len(t@) == utf8_width(t@[0]));
        }
    }
    if t.len() >= 2 {
        true
    } else if t.len() == 1 {
        let u = t[0] as u32;
        u >= 0x80
    } else {
        false
    }
}

/// What the replay controls show beside the samples.
pub struct ReplayControlTexts {
    /// The Load button can be pressed.
    pub load_enabled: bool,
    /// The label of the Load button.
    pub load_label: &'static str,
    /// The label of the button that fetches the past sessions.
    pub refresh_label: &'static str,
    /// What the session list says while it is empty.
    pub sessions_hint: &'static str,
}

/// What the session list says while empty, for the given process-name field.
pub open spec fn sessions_hint_of(name_input: Seq<char>) -> Seq<char> {
    if trim(name_input).len() == 0 {
        "No sessions loaded - click Refresh to fetch from database"@
    } else {
        "No sessions loaded - click Refresh (results will be filtered to sessions where this process ran)"@
    }
}

/// The replay controls' buttons: Load needs a process name and no load
/// under way; a button whose work is under way reads "Loading...".
pub fn replay_control_texts(is_loading: bool, sessions_loading: bool, name_input: &str) -> (r:
    ReplayControlTexts)
    ensures
        r.load_enabled == (!is_loading && trim(name_input@).len() > 0),
        r.load_label@ == (if is_loading {
            "Loading..."@
        } else {
            "Load"@
        }),
        r.refresh_label@ == (if sessions_loading {
            "Loading..."@
        } else {
            "Refresh"@
        }),
        r.sessions_hint@ == sessions_hint_of(name_input@),
{
    let t = trim_chars(name_input);
    let named = t.len() > 0;
    ReplayControlTexts {
        load_enabled: !is_loading && named,
        load_label: if is_loading {
            "Loading..."
        } else {
            "Load"
        },
        refresh_label: if sessions_loading {
            "Loading..."
        } else {
            "Refresh"
        },
        sessions_hint: if named {
            "No sessions loaded - click Refresh (results will be filtered to sessions where this process ran)"
        } else {
            "No sessions loaded - click Refresh to fetch from database"
        },
    }
}

/// What a click on the allocation-scan button asks for.
#[derive(Debug, Clone, Copy, PartialEq, Eq, Structural)]
pub enum CaptureClick {
    Start,
    Stop,
}

/// The two action buttons of the leak report.
pub struct LeakReportButtons {
    /// The label of the allocation-scan button.
    pub deep_label: &'static str,
    /// The style of the allocation-scan button.
    pub deep_class: &'static str,
    /// The allocation-scan button cannot be pressed.
    pub deep_disabled: bool,
    /// The hint over the allocation-scan button.
    pub deep_title: &'static str,
    /// What a click on the allocation-scan button asks for.
    pub deep_click: CaptureClick,
    /// The label of the reachability button.
    pub reach_label: &'static str,
    /// The reachability button cannot be pressed.
    pub reach_disabled: bool,
    /// The hint over the reachability button.
    pub reach_title: &'static str,
}

/// The label of the allocation-scan button for the scan's state.
pub open spec fn deep_label_of(status: Option<DeepScanStatus>) -> Seq<char> {
    match status {
        Some(DeepScanStatus::Running) => "Stop allocation-scan capture"@,
        Some(DeepScanStatus::Failed) => "Restart allocation-scan capture"@,
        _ => "Start allocation-scan capture"@,
    }
}

/// The label of the reachability button for the scan's state.
pub open spec fn reach_label_of(status: Option<DeepScanStatus>) -> Seq<char> {
    match status {
        Some(DeepScanStatus::Running) => seq!['S', 'c', 'a', 'n', 'n', 'i', 'n', 'g', '\u{2026}'],
        Some(DeepScanStatus::Done) => "Rescan"@,
        Some(DeepScanStatus::Failed) => "Retry"@,
        _ => "Run reachability scan"@,
    }
}

/// The leak report's buttons for the state of the process's two scans
/// (none when it never had one) and whether each scanner can run here: a
/// running capture is stopped by the button, any other one started; a
/// reachability scan cannot be asked for while one runs.
pub fn leak_report_buttons(
    deep: Option<DeepScanStatus>,
    reach: Option<DeepScanStatus>,
    deep_available: bool,
    reach_available: bool,
) -> (r: LeakReportButtons)
    ensures
        r.deep_label@ == deep_label_of(deep),
        r.deep_class@ == (if deep == Some(DeepScanStatus::Running) {
            "deep-scan-btn deep-scan-btn-active"@
        } else {
            "deep-scan-btn"@
        }),
        r.deep_disabled == !deep_available,
        r.deep_title@ == (if deep_available {
            ""@
        } else {
            "requires root / CAP_BPF and bpftrace"@
        }),
        r.deep_click == (if deep == Some(DeepScanStatus::Running) {
            CaptureClick::Stop
        } else {
            CaptureClick::Start
        }),
        r.reach_label@ == reach_label_of(reach),
        r.reach_disabled == (!reach_available || reach == Some(DeepScanStatus::Running)),
        r.reach_title@ == (if reach_available {
            ""@
        } else {
            "requires root + gcore (gdb package)"@
        }),
{
    let deep_running = match deep {
        Some(DeepScanStatus::Running) => true,
        _ => false,
    };
    let reach_running = match reach {
        Some(DeepScanStatus::Running) => true,
        _ => false,
    };
    let deep_label = match deep {
        Some(DeepScanStatus::Running) => "Stop allocation-scan capture",
        Some(DeepScanStatus::Failed) => "Restart allocation-scan capture",
        _ => "Start allocation-scan capture",
    };
    let reach_label = match reach {
        Some(DeepScanStatus::Running) => {
            proof {
                reveal_strlit("Scanning\u{2026}");
            }
            "Scanning\u{2026}"
        },
        Some(DeepScanStatus::Done) => "Rescan",
        Some(DeepScanStatus::Failed) => "Retry",
        _ => "Run reachability scan",
    };
    LeakReportButtons {
        deep_label,
        deep_class: if deep_running {
            "deep-scan-btn deep-scan-btn-active"
        } else {
            "deep-scan-btn"
        },
        deep_disabled: !deep_available,
        deep_title: if deep_available {
            ""
        } else {
            "requires root / CAP_BPF and bpftrace"
        },
        deep_click: if deep_running {
            CaptureClick::Stop
        } else {
            CaptureClick::Start
        },
        reach_label,
        reach_disabled: !reach_available || reach_running,
        reach_title: if reach_available {
            ""
        } else {
            "requires root + gcore (gdb package)"
        },
    }
}

} // verus!
