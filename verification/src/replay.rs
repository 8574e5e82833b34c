//! The replay player: a recorded series of samples, a cursor that moves
//! along it while playing, and the scan markers, leaked blocks and
//! allocation series that come with a recording.
//!
//! The payload of a sample or of an allocation point, and the description of
//! a stored session, are type parameters: the player only reads the time at
//! which each point was collected.

use std::time::Instant;

use vstd::prelude::*;

use crate::clock::{duration_as_millis, instant_now, now_unix_ms, saturating_duration_since};
use crate::text::{append_chars, append_vec, dec, dec_chars, string_of, trim, trim_chars};
use crate::timefmt::{
    datetime_input_text, format_datetime_input, parse_datetime_input_to_unix_ms, parsed_input_ms,
};

verus! {

/// A completed leak scan of a process, as a marker on the replay timeline.
#[derive(Debug, Clone, PartialEq, Eq, Structural)]
pub struct ReplayScanMarker {
    pub id: i64,
    pub pid: u32,
    pub started_at_ms: i64,
    pub total_blocks: i64,
    pub total_lost_bytes: u64,
    pub definitely_lost_bytes: u64,
    pub possibly_lost_bytes: u64,
    pub indirectly_lost_bytes: u64,
}

/// One leaked block reported by a scan.
#[derive(Debug, Clone)]
pub struct ReplayLeakedBlock {
    pub addr: u64,
    pub size: u64,
    pub class: String,
    pub stack_text: Option<String>,
}

/// Where the loaded samples came from.
#[derive(Debug, Clone, Copy, PartialEq, Eq, Structural)]
pub enum ReplaySource {
    NotLoaded,
    SqliteByName,
}

/// A point of a recorded series: the time it was collected and what was collected.
#[derive(Debug, Clone)]
pub struct ReplayPoint<T> {
    pub collected_at_ms: i64,
    pub data: T,
}

/// The position of the cursor along the loaded span, as the terms of a ratio.
#[derive(Debug, Clone, Copy, PartialEq, Eq, Structural)]
pub enum RatioTerms {
    /// No samples or no cursor: the ratio is 0.
    Zero,
    /// The span is empty: the ratio is 1.
    One,
    /// The ratio is `offset_ms / span_ms`.
    Quotient { offset_ms: i64, span_ms: i64 },
}

/// The state of the replay player.
pub struct ReplayState<S, A, I> {
    pub start_at_input: String,
    pub end_at_input: String,
    pub name_lookup_input: String,
    pub name_suggestions: Vec<String>,
    pub is_playing: bool,
    pub is_loading: bool,
    pub cursor_ms: Option<i64>,
    pub last_tick_at: Option<Instant>,
    pub samples: Vec<ReplayPoint<S>>,
    pub source: ReplaySource,
    pub message: String,
    pub sessions_list: Vec<I>,
    pub sessions_loading: bool,
    pub scan_markers: Vec<ReplayScanMarker>,
    pub scans_loading: bool,
    pub selected_scan_id: Option<i64>,
    pub selected_scan_blocks: Vec<ReplayLeakedBlock>,
    pub blocks_loading: bool,
    pub allocation_series: Vec<ReplayPoint<A>>,
    pub allocation_loading: bool,
}

/// One day in milliseconds, the default look-back of a new player.
pub const DAY_MS: i64 = 86_400_000;

/// `x` saturated to the range of `i64`.
pub open spec fn sat_i64(x: int) -> i64 {
    if x < i64::MIN {
        i64::MIN
    } else if x > i64::MAX {
        i64::MAX
    } else {
        x as i64
    }
}

/// `x` limited to `lo ..= hi`.
pub open spec fn clamp_i64(x: i64, lo: i64, hi: i64) -> i64 {
    if x < lo {
        lo
    } else if x > hi {
        hi
    } else {
        x
    }
}

/// `i64::saturating_add`.
pub fn sat_add(a: i64, b: i64) -> (r: i64)
    ensures
        r == sat_i64(a + b),
{
    let s: i128 = a as i128 + b as i128;
    if s < i64::MIN as i128 {
        i64::MIN
    } else if s > i64::MAX as i128 {
        i64::MAX
    } else {
        s as i64
    }
}

/// `i64::saturating_sub`.
pub fn sat_sub(a: i64, b: i64) -> (r: i64)
    ensures
        r == sat_i64(a - b),
{
    let s: i128 = a as i128 - b as i128;
    if s < i64::MIN as i128 {
        i64::MIN
    } else if s > i64::MAX as i128 {
        i64::MAX
    } else {
        s as i64
    }
}

/// `i64::saturating_mul`.
pub fn sat_mul(a: i64, b: i64) -> (r: i64)
    ensures
        r == sat_i64(a * b),
{
    proof {
        assert(-0x4000_0000_0000_0000_0000_0000_0000_0000int <= a * b
            <= 0x4000_0000_0000_0000_0000_0000_0000_0000int) by (nonlinear_arith)
            requires
                i64::MIN <= a <= i64::MAX,
                i64::MIN <= b <= i64::MAX,
        ;
    }
    let s: i128 = a as i128 * b as i128;
    if s < i64::MIN as i128 {
        i64::MIN
    } else if s > i64::MAX as i128 {
        i64::MAX
    } else {
        s as i64
    }
}

/// The start time of the first marker of `s` with id `id`.
pub open spec fn scan_start_of(s: Seq<ReplayScanMarker>, id: i64) -> Option<i64>
    decreases s.len(),
{
    if s.len() == 0 {
        None
    } else if s[0].id == id {
        Some(s[0].started_at_ms)
    } else {
        scan_start_of(s.drop_first(), id)
    }
}

/// The number of leading points of `s` collected at or before `cursor`.
pub open spec fn is_visible_prefix<T>(s: Seq<ReplayPoint<T>>, cursor: i64, n: int) -> bool {
    &&& 0 <= n <= s.len()
    &&& forall|i: int| 0 <= i < n ==> #[trigger] s[i].collected_at_ms <= cursor
    &&& n < s.len() ==> s[n].collected_at_ms > cursor
}

/// The points of `s` are in order of collection time.
pub open spec fn in_time_order<T>(s: Seq<ReplayPoint<T>>) -> bool {
    forall|i: int, j: int|
        0 <= i <= j < s.len() ==> #[trigger] s[i].collected_at_ms <= #[trigger] s[j].collected_at_ms
}

/// The message of a player that has nothing loaded yet.
pub open spec fn welcome_message() -> Seq<char> {
    "Enter a process name and time range, then click Load"@
}

impl<S, A, I> ReplayState<S, A, I> {
    /// The collection time of the first sample.
    pub open spec fn first_ms(&self) -> Option<i64> {
        if self.samples@.len() > 0 {
            Some(self.samples@[0].collected_at_ms)
        } else {
            None
        }
    }

    /// The collection time of the last sample.
    pub open spec fn last_ms(&self) -> i64 {
        self.samples@.last().collected_at_ms
    }

    /// The last sample is not older than the first.
    pub open spec fn ends_ordered(&self) -> bool {
        self.samples@.len() > 0 ==> self.samples@[0].collected_at_ms <= self.last_ms()
    }

    /// With samples loaded, the cursor is set and lies between the first
    /// sample's time and the last one's.
    pub open spec fn cursor_within_span(&self) -> bool {
        self.samples@.len() > 0 ==> match self.cursor_ms {
            Some(c) => self.samples@[0].collected_at_ms <= c <= self.last_ms(),
            None => false,
        }
    }

    /// The position of the cursor along the loaded span, as the two integers
    /// whose quotient it is.
    pub open spec fn ratio_terms_of(&self) -> RatioTerms {
        if self.samples@.len() == 0 || self.cursor_ms is None {
            RatioTerms::Zero
        } else {
            let first = self.samples@[0].collected_at_ms;
            let span = sat_i64(self.last_ms() - first);
            if span == 0 {
                RatioTerms::One
            } else {
                RatioTerms::Quotient { offset_ms: sat_i64(self.cursor_ms.unwrap() - first), span_ms: span }
            }
        }
    }

    /// The four input fields are those of `other`.
    pub open spec fn same_inputs(&self, other: &Self) -> bool {
        &&& self.start_at_input@ == other.start_at_input@
        &&& self.end_at_input@ == other.end_at_input@
        &&& self.name_lookup_input@ == other.name_lookup_input@
        &&& self.name_suggestions@ == other.name_suggestions@
    }

    /// The loaded samples and the playback fields are those of `other`.
    pub open spec fn same_playback(&self, other: &Self) -> bool {
        &&& self.is_playing == other.is_playing
        &&& self.is_loading == other.is_loading
        &&& self.cursor_ms == other.cursor_ms
        &&& self.last_tick_at == other.last_tick_at
        &&& self.samples@ == other.samples@
        &&& self.source == other.source
        &&& self.message@ == other.message@
    }

    /// The session list fields are those of `other`.
    pub open spec fn same_sessions(&self, other: &Self) -> bool {
        &&& self.sessions_list@ == other.sessions_list@
        &&& self.sessions_loading == other.sessions_loading
    }

    /// The scan fields are those of `other`.
    pub open spec fn same_scans(&self, other: &Self) -> bool {
        &&& self.scan_markers@ == other.scan_markers@
        &&& self.scans_loading == other.scans_loading
        &&& self.selected_scan_id == other.selected_scan_id
        &&& self.selected_scan_blocks@ == other.selected_scan_blocks@
        &&& self.blocks_loading == other.blocks_loading
    }

    /// The allocation fields are those of `other`.
    pub open spec fn same_allocation(&self, other: &Self) -> bool {
        &&& self.allocation_series@ == other.allocation_series@
        &&& self.allocation_loading == other.allocation_loading
    }

    /// The player as it is created at unix time `now_ms`.
    pub open spec fn is_initial(&self, now_ms: i64) -> bool {
        &&& self.start_at_input@ == datetime_input_text(sat_i64(now_ms - DAY_MS))
        &&& self.end_at_input@ == datetime_input_text(now_ms)
        &&& self.name_lookup_input@.len() == 0
        &&& self.name_suggestions@.len() == 0
        &&& !self.is_playing
        &&& !self.is_loading
        &&& self.cursor_ms is None
        &&& self.last_tick_at is None
        &&& self.samples@.len() == 0
        &&& self.source == ReplaySource::NotLoaded
        &&& self.message@ == welcome_message()
        &&& self.sessions_list@.len() == 0
        &&& !self.sessions_loading
        &&& self.scan_markers@.len() == 0
        &&& !self.scans_loading
        &&& self.selected_scan_id is None
        &&& self.selected_scan_blocks@.len() == 0
        &&& !self.blocks_loading
        &&& self.allocation_series@.len() == 0
        &&& !self.allocation_loading
    }

    /// What `build_name_request` gives: the trimmed process name and the
    /// start and end of the range, or the first error.
    pub open spec fn name_request(&self) -> Result<(Seq<char>, int, int), Seq<char>> {
        let name = trim(self.name_lookup_input@);
        if name.len() == 0 {
            Err("enter a process name to look up"@)
        } else {
            match parsed_input_ms(self.start_at_input@) {
                Err(m) => Err(m),
                Ok(start) => match parsed_input_ms(self.end_at_input@) {
                    Err(m) => Err(m),
                    Ok(end) => if end <= start {
                        Err("end timestamp must be greater than start timestamp"@)
                    } else {
                        Ok((name, start, end))
                    },
                },
            }
        }
    }

    /// A player whose range ends at unix time `now_ms` and starts a day earlier.
    pub fn new_at(now_ms: i64) -> (r: Self)
        ensures
            r.is_initial(now_ms),
    {
        let start_ms = sat_sub(now_ms, DAY_MS);
        ReplayState {
            start_at_input: format_datetime_input(start_ms),
            end_at_input: format_datetime_input(now_ms),
            name_lookup_input: String::new(),
            name_suggestions: Vec::new(),
            is_playing: false,
            is_loading: false,
            cursor_ms: None,
            last_tick_at: None,
            samples: Vec::new(),
            source: ReplaySource::NotLoaded,
            message: String::from_str("Enter a process name and time range, then click Load"),
            sessions_list: Vec::new(),
            sessions_loading: false,
            scan_markers: Vec::new(),
            scans_loading: false,
            selected_scan_id: None,
            selected_scan_blocks: Vec::new(),
            blocks_loading: false,
            allocation_series: Vec::new(),
            allocation_loading: false,
        }
    }

    /// A player whose range is the last day up to the current time.
    pub fn new() -> (r: Self)
        ensures
            exists|now_ms: i64| now_ms >= 0 && #[trigger] r.is_initial(now_ms),
    {
        let now_ms = now_unix_ms();
        Self::new_at(now_ms)
    }

    /// Sets the process name to look up and drops the suggestions.
    pub fn set_name_lookup_input(&mut self, value: String)
        ensures
            final(self).name_lookup_input == value,
            final(self).name_suggestions@.len() == 0,
            final(self).start_at_input@ == old(self).start_at_input@,
            final(self).end_at_input@ == old(self).end_at_input@,
            final(self).same_playback(old(self)),
            final(self).same_sessions(old(self)),
            final(self).same_scans(old(self)),
            final(self).same_allocation(old(self)),
    {
        self.name_lookup_input = value;
        self.name_suggestions.clear();
    }

    /// Sets the name suggestions.
    pub fn set_name_suggestions(&mut self, names: Vec<String>)
        ensures
            final(self).name_suggestions@ == names@,
            final(self).start_at_input@ == old(self).start_at_input@,
            final(self).end_at_input@ == old(self).end_at_input@,
            final(self).name_lookup_input@ == old(self).name_lookup_input@,
            final(self).same_playback(old(self)),
            final(self).same_sessions(old(self)),
            final(self).same_scans(old(self)),
            final(self).same_allocation(old(self)),
    {
        self.name_suggestions = names;
    }

    /// Takes a suggested name as the name to look up and drops the suggestions.
    pub fn pick_name_suggestion(&mut self, name: String)
        ensures
            final(self).name_lookup_input == name,
            final(self).name_suggestions@.len() == 0,
            final(self).start_at_input@ == old(self).start_at_input@,
            final(self).end_at_input@ == old(self).end_at_input@,
            final(self).same_playback(old(self)),
            final(self).same_sessions(old(self)),
            final(self).same_scans(old(self)),
            final(self).same_allocation(old(self)),
    {
        self.name_lookup_input = name;
        self.name_suggestions.clear();
    }

    /// Sets the text of the range's start.
    pub fn set_start_at_input(&mut self, value: String)
        ensures
            final(self).start_at_input == value,
            final(self).end_at_input@ == old(self).end_at_input@,
            final(self).name_lookup_input@ == old(self).name_lookup_input@,
            final(self).name_suggestions@ == old(self).name_suggestions@,
            final(self).same_playback(old(self)),
            final(self).same_sessions(old(self)),
            final(self).same_scans(old(self)),
            final(self).same_allocation(old(self)),
    {
        self.start_at_input = value;
    }

    /// Sets the text of the range's end.
    pub fn set_end_at_input(&mut self, value: String)
        ensures
            final(self).end_at_input == value,
            final(self).start_at_input@ == old(self).start_at_input@,
            final(self).name_lookup_input@ == old(self).name_lookup_input@,
            final(self).name_suggestions@ == old(self).name_suggestions@,
            final(self).same_playback(old(self)),
            final(self).same_sessions(old(self)),
            final(self).same_scans(old(self)),
            final(self).same_allocation(old(self)),
    {
        self.end_at_input = value;
    }

    /// The request to load samples by process name: the trimmed name and the
    /// range in unix milliseconds, or why it cannot be made.
    pub fn build_name_request(&self) -> (r: Result<(String, i64, i64), String>)
        ensures
            match r {
                Ok((name, start, end)) => self.name_request() == Ok::<
                    (Seq<char>, int, int),
                    Seq<char>,
                >((name@, start as int, end as int)),
                Err(m) => self.name_request() == Err::<(Seq<char>, int, int), Seq<char>>(m@),
            },
    {
        let name_chars = trim_chars(self.name_lookup_input.as_str());
        if name_chars.len() == 0 {
            return Err(String::from_str("enter a process name to look up"));
        }
        let name = string_of(&name_chars);
        let start_ms = match parse_datetime_input_to_unix_ms(self.start_at_input.as_str()) {
            Ok(v) => v,
            Err(m) => {
                return Err(m);
            },
        };
        let end_ms = match parse_datetime_input_to_unix_ms(self.end_at_input.as_str()) {
            Ok(v) => v,
            Err(m) => {
                return Err(m);
            },
        };
        if end_ms <= start_ms {
            return Err(String::from_str("end timestamp must be greater than start timestamp"));
        }
        Ok((name, start_ms, end_ms))
    }

    /// Drops what was loaded and marks samples, scans and allocations as loading.
    pub fn mark_loading(&mut self)
        ensures
            final(self).is_loading,
            !final(self).is_playing,
            final(self).last_tick_at is None,
            final(self).samples@.len() == 0,
            final(self).cursor_ms is None,
            final(self).source == ReplaySource::NotLoaded,
            final(self).message@ == "Loading replay samples..."@,
            final(self).scan_markers@.len() == 0,
            final(self).scans_loading,
            final(self).selected_scan_id is None,
            final(self).selected_scan_blocks@.len() == 0,
            !final(self).blocks_loading,
            final(self).allocation_series@.len() == 0,
            final(self).allocation_loading,
            final(self).same_inputs(old(self)),
            final(self).same_sessions(old(self)),
    {
        self.is_loading = true;
        self.is_playing = false;
        self.last_tick_at = None;
        self.samples.clear();
        self.cursor_ms = None;
        self.source = ReplaySource::NotLoaded;
        self.message = String::from_str("Loading replay samples...");
        self.scan_markers.clear();
        self.scans_loading = true;
        self.selected_scan_id = None;
        self.selected_scan_blocks.clear();
        self.blocks_loading = false;
        self.allocation_series.clear();
        self.allocation_loading = true;
    }

    /// Takes loaded samples: the cursor goes to the first one, playback stops.
    pub fn apply_samples(&mut self, samples: Vec<ReplayPoint<S>>, source: ReplaySource, message: String)
        ensures
            !final(self).is_loading,
            final(self).source == source,
            final(self).samples@ == samples@,
            final(self).cursor_ms == final(self).first_ms(),
            !final(self).is_playing,
            final(self).last_tick_at is None,
            final(self).message == message,
            final(self).same_inputs(old(self)),
            final(self).same_sessions(old(self)),
            final(self).same_scans(old(self)),
            final(self).same_allocation(old(self)),
    {
        self.is_loading = false;
        self.source = source;
        self.samples = samples;
        self.cursor_ms = if self.samples.len() > 0 {
            Some(self.samples[0].collected_at_ms)
        } else {
            None
        };
        self.is_playing = false;
        self.last_tick_at = None;
        self.message = message;
    }

    /// Takes the samples found for a process name, with the message that
    /// says how many there were.
    pub fn apply_history_by_name(&mut self, name: &str, samples: Vec<ReplayPoint<S>>)
        ensures
            !final(self).is_loading,
            final(self).samples@ == samples@,
            final(self).cursor_ms == final(self).first_ms(),
            !final(self).is_playing,
            final(self).last_tick_at is None,
            samples@.len() == 0 ==> final(self).source == ReplaySource::NotLoaded
                && final(self).message@ == "No samples found for '"@ + name@ + "'"@,
            samples@.len() > 0 ==> final(self).source == ReplaySource::SqliteByName
                && final(self).message@ == "Loaded "@ + dec(samples@.len()) + " samples for '"@
                + name@ + "' (by name)"@,
            final(self).same_inputs(old(self)),
            final(self).same_sessions(old(self)),
            final(self).same_scans(old(self)),
            final(self).same_allocation(old(self)),
    {
        let count = samples.len();
        let mut m: Vec<char> = Vec::new();
        if count == 0 {
            append_chars(&mut m, "No samples found for '");
            append_chars(&mut m, name);
            append_chars(&mut m, "'");
            self.apply_samples(samples, ReplaySource::NotLoaded, string_of(&m));
        } else {
            append_chars(&mut m, "Loaded ");
            let d = dec_chars(count as u64);
            append_vec(&mut m, &d);
            append_chars(&mut m, " samples for '");
            append_chars(&mut m, name);
            append_chars(&mut m, "' (by name)");
            self.apply_samples(samples, ReplaySource::SqliteByName, string_of(&m));
        }
    }

    /// Takes the loaded scan markers.
    pub fn set_scan_markers(&mut self, scans: Vec<ReplayScanMarker>)
        ensures
            final(self).scan_markers@ == scans@,
            !final(self).scans_loading,
            final(self).selected_scan_id == old(self).selected_scan_id,
            final(self).selected_scan_blocks@ == old(self).selected_scan_blocks@,
            final(self).blocks_loading == old(self).blocks_loading,
            final(self).same_inputs(old(self)),
            final(self).same_playback(old(self)),
            final(self).same_sessions(old(self)),
            final(self).same_allocation(old(self)),
    {
        self.scan_markers = scans;
        self.scans_loading = false;
    }

    /// Takes the loaded allocation series.
    pub fn set_allocation_series(&mut self, series: Vec<ReplayPoint<A>>)
        ensures
            final(self).allocation_series@ == series@,
            !final(self).allocation_loading,
            final(self).same_inputs(old(self)),
            final(self).same_playback(old(self)),
            final(self).same_sessions(old(self)),
            final(self).same_scans(old(self)),
    {
        self.allocation_series = series;
        self.allocation_loading = false;
    }

    /// Selects a scan: its blocks are to be loaded, and when a marker has
    /// that id the cursor moves to the scan's start and playback stops.
    pub fn select_scan(&mut self, scan_id: i64)
        ensures
            final(self).selected_scan_id == Some(scan_id),
            final(self).blocks_loading,
            final(self).selected_scan_blocks@.len() == 0,
            final(self).scan_markers@ == old(self).scan_markers@,
            final(self).scans_loading == old(self).scans_loading,
            match scan_start_of(old(self).scan_markers@, scan_id) {
                Some(ts) => {
                    &&& final(self).cursor_ms == Some(ts)
                    &&& !final(self).is_playing
                    &&& final(self).last_tick_at is None
                },
                None => {
                    &&& final(self).cursor_ms == old(self).cursor_ms
                    &&& final(self).is_playing == old(self).is_playing
                    &&& final(self).last_tick_at == old(self).last_tick_at
                },
            },
            final(self).is_loading == old(self).is_loading,
            final(self).samples@ == old(self).samples@,
            final(self).source == old(self).source,
            final(self).message@ == old(self).message@,
            final(self).same_inputs(old(self)),
            final(self).same_sessions(old(self)),
            final(self).same_allocation(old(self)),
    {
        let mut found: Option<i64> = None;
        let mut i: usize = 0;
        let n = self.scan_markers.len();
        assert(self.scan_markers@.skip(0) =~= self.scan_markers@);
        while i < n
            invariant
                n == self.scan_markers@.len(),
                i <= n,
                found is None ==> scan_start_of(self.scan_markers@.skip(i as int), scan_id)
                    == scan_start_of(self.scan_markers@, scan_id),
                found is Some ==> found == scan_start_of(self.scan_markers@, scan_id),
            decreases n - i,
        {
            let m = &self.scan_markers[i];
            assert(self.scan_markers@.skip(i as int).drop_first() =~= self.scan_markers@.skip(
                (i + 1) as int,
            ));
            assert(self.scan_markers@.skip(i as int)[0] == self.scan_markers@[i as int]);
            if found.is_none() && m.id == scan_id {
                found = Some(m.started_at_ms);
            }
            i = i + 1;
        }
        proof {
            if found is None {
                assert(self.scan_markers@.skip(n as int) =~= Seq::<ReplayScanMarker>::empty());
            }
        }
        assert(found == scan_start_of(self.scan_markers@, scan_id));
        self.selected_scan_id = Some(scan_id);
        self.blocks_loading = true;
        self.selected_scan_blocks.clear();
        if let Some(ts) = found {
            self.cursor_ms = Some(ts);
            self.is_playing = false;
            self.last_tick_at = None;
        }
    }

    /// Takes the loaded blocks of a scan, if that scan is still the one selected.
    pub fn set_selected_scan_blocks(&mut self, scan_id: i64, blocks: Vec<ReplayLeakedBlock>)
        ensures
            old(self).selected_scan_id == Some(scan_id) ==> {
                &&& final(self).selected_scan_blocks@ == blocks@
                &&& !final(self).blocks_loading
            },
            old(self).selected_scan_id != Some(scan_id) ==> {
                &&& final(self).selected_scan_blocks@ == old(self).selected_scan_blocks@
                &&& final(self).blocks_loading == old(self).blocks_loading
            },
            final(self).selected_scan_id == old(self).selected_scan_id,
            final(self).scan_markers@ == old(self).scan_markers@,
            final(self).scans_loading == old(self).scans_loading,
            final(self).same_inputs(old(self)),
            final(self).same_playback(old(self)),
            final(self).same_sessions(old(self)),
            final(self).same_allocation(old(self)),
    {
        if self.selected_scan_id != Some(scan_id) {
            return;
        }
        self.selected_scan_blocks = blocks;
        self.blocks_loading = false;
    }

    /// Closes the scan details: no scan selected, no blocks.
    pub fn close_scan_modal(&mut self)
        ensures
            final(self).selected_scan_id is None,
            final(self).selected_scan_blocks@.len() == 0,
            !final(self).blocks_loading,
            final(self).scan_markers@ == old(self).scan_markers@,
            final(self).scans_loading == old(self).scans_loading,
            final(self).same_inputs(old(self)),
            final(self).same_playback(old(self)),
            final(self).same_sessions(old(self)),
            final(self).same_allocation(old(self)),
    {
        self.selected_scan_id = None;
        self.selected_scan_blocks.clear();
        self.blocks_loading = false;
    }

    /// Shows an error: loading and playback stop.
    pub fn set_error(&mut self, message: String)
        ensures
            !final(self).is_loading,
            !final(self).is_playing,
            final(self).last_tick_at is None,
            final(self).message == message,
            final(self).cursor_ms == old(self).cursor_ms,
            final(self).samples@ == old(self).samples@,
            final(self).source == old(self).source,
            final(self).same_inputs(old(self)),
            final(self).same_sessions(old(self)),
            final(self).same_scans(old(self)),
            final(self).same_allocation(old(self)),
    {
        self.is_loading = false;
        self.is_playing = false;
        self.last_tick_at = None;
        self.message = message;
    }

    /// Starts or pauses playback; with no samples nothing changes. A tick
    /// reference is kept exactly while playing.
    pub fn toggle_play_pause(&mut self)
        ensures
            old(self).samples@.len() == 0 ==> final(self).is_playing == old(self).is_playing
                && final(self).last_tick_at == old(self).last_tick_at,
            old(self).samples@.len() > 0 ==> {
                &&& final(self).is_playing == !old(self).is_playing
                &&& (final(self).last_tick_at is Some <==> final(self).is_playing)
            },
            final(self).is_loading == old(self).is_loading,
            final(self).cursor_ms == old(self).cursor_ms,
            final(self).samples@ == old(self).samples@,
            final(self).source == old(self).source,
            final(self).message@ == old(self).message@,
            final(self).same_inputs(old(self)),
            final(self).same_sessions(old(self)),
            final(self).same_scans(old(self)),
            final(self).same_allocation(old(self)),
    {
        if self.samples.len() == 0 {
            return;
        }
        self.is_playing = !self.is_playing;
        self.last_tick_at = if self.is_playing {
            Some(instant_now())
        } else {
            None
        };
    }

    /// Stops playback and returns the cursor to the first sample.
    pub fn stop(&mut self)
        ensures
            !final(self).is_playing,
            final(self).last_tick_at is None,
            final(self).cursor_ms == old(self).first_ms(),
            final(self).is_loading == old(self).is_loading,
            final(self).samples@ == old(self).samples@,
            final(self).source == old(self).source,
            final(self).message@ == old(self).message@,
            final(self).same_inputs(old(self)),
            final(self).same_sessions(old(self)),
            final(self).same_scans(old(self)),
            final(self).same_allocation(old(self)),
    {
        self.is_playing = false;
        self.last_tick_at = None;
        self.cursor_ms = if self.samples.len() > 0 {
            Some(self.samples[0].collected_at_ms)
        } else {
            None
        };
    }

    /// The time from the first sample to the last, saturated; `None` with no samples.
    pub fn span_ms(&self) -> (r: Option<i64>)
        ensures
            r == (if self.samples@.len() > 0 {
                Some(sat_i64(self.last_ms() - self.samples@[0].collected_at_ms))
            } else {
                None::<i64>
            }),
    {
        let n = self.samples.len();
        if n == 0 {
            return None;
        }
        Some(sat_sub(self.samples[n - 1].collected_at_ms, self.samples[0].collected_at_ms))
    }

    /// Puts the cursor `offset_ms` after the first sample (saturated); with no
    /// samples nothing changes. While playing, ticking restarts from now.
    pub fn seek_to_offset(&mut self, offset_ms: i64)
        ensures
            old(self).samples@.len() == 0 ==> final(self).cursor_ms == old(self).cursor_ms
                && final(self).last_tick_at == old(self).last_tick_at,
            old(self).samples@.len() > 0 ==> {
                &&& final(self).cursor_ms == Some(
                    sat_i64(old(self).samples@[0].collected_at_ms + offset_ms),
                )
                &&& (old(self).is_playing ==> final(self).last_tick_at is Some)
                &&& (!old(self).is_playing ==> final(self).last_tick_at == old(self).last_tick_at)
            },
            final(self).is_playing == old(self).is_playing,
            final(self).is_loading == old(self).is_loading,
            final(self).samples@ == old(self).samples@,
            final(self).source == old(self).source,
            final(self).message@ == old(self).message@,
            final(self).same_inputs(old(self)),
            final(self).same_sessions(old(self)),
            final(self).same_scans(old(self)),
            final(self).same_allocation(old(self)),
    {
        if self.samples.len() == 0 {
            return;
        }
        let first = self.samples[0].collected_at_ms;
        self.cursor_ms = Some(sat_add(first, offset_ms));
        if self.is_playing {
            self.last_tick_at = Some(instant_now());
        }
    }

    /// Moves the cursor by `seconds`, within the loaded span; with no samples
    /// nothing changes. While playing, ticking restarts from now.
    pub fn seek_by_seconds(&mut self, seconds: i64)
        requires
            old(self).ends_ordered(),
        ensures
            old(self).samples@.len() == 0 ==> final(self).cursor_ms == old(self).cursor_ms
                && final(self).last_tick_at == old(self).last_tick_at,
            old(self).samples@.len() > 0 ==> {
                let first = old(self).samples@[0].collected_at_ms;
                let base = match old(self).cursor_ms {
                    Some(c) => c,
                    None => first,
                };
                &&& final(self).cursor_ms == Some(
                    clamp_i64(
                        sat_i64(base + sat_i64(seconds * 1000)),
                        first,
                        old(self).last_ms(),
                    ),
                )
                &&& (old(self).is_playing ==> final(self).last_tick_at is Some)
                &&& (!old(self).is_playing ==> final(self).last_tick_at == old(self).last_tick_at)
            },
            final(self).cursor_within_span(),
            final(self).is_playing == old(self).is_playing,
            final(self).is_loading == old(self).is_loading,
            final(self).samples@ == old(self).samples@,
            final(self).source == old(self).source,
            final(self).message@ == old(self).message@,
            final(self).same_inputs(old(self)),
            final(self).same_sessions(old(self)),
            final(self).same_scans(old(self)),
            final(self).same_allocation(old(self)),
    {
        let n = self.samples.len();
        if n == 0 {
            return;
        }
        let first = self.samples[0].collected_at_ms;
        let last = self.samples[n - 1].collected_at_ms;
        let base = match self.cursor_ms {
            Some(c) => c,
            None => first,
        };
        let shifted = sat_add(base, sat_mul(seconds, 1000));
        let clamped = if shifted < first {
            first
        } else if shifted > last {
            last
        } else {
            shifted
        };
        self.cursor_ms = Some(clamped);
        if self.is_playing {
            self.last_tick_at = Some(instant_now());
        }
    }

    /// The position of the cursor along the loaded span.
    pub fn ratio_terms(&self) -> (r: RatioTerms)
        ensures
            r == self.ratio_terms_of(),
            self.samples@.len() == 0 || self.cursor_ms is None ==> r == RatioTerms::Zero,
            self.samples@.len() > 0 && self.cursor_ms is Some ==> {
                let first = self.samples@[0].collected_at_ms;
                let span = sat_i64(self.last_ms() - first);
                &&& span == 0 ==> r == RatioTerms::One
                &&& span != 0 ==> r == (RatioTerms::Quotient {
                    offset_ms: sat_i64(self.cursor_ms.unwrap() - first),
                    span_ms: span,
                })
            },
    {
        let n = self.samples.len();
        if n == 0 {
            return RatioTerms::Zero;
        }
        let cursor = match self.cursor_ms {
            Some(c) => c,
            None => {
                return RatioTerms::Zero;
            },
        };
        let first = self.samples[0].collected_at_ms;
        let span = sat_sub(self.samples[n - 1].collected_at_ms, first);
        if span == 0 {
            return RatioTerms::One;
        }
        RatioTerms::Quotient { offset_ms: sat_sub(cursor, first), span_ms: span }
    }

    /// Sets the range to the `lookback_ms` before unix time `now_ms`.
    pub fn apply_preset_range_at(&mut self, now_ms: i64, lookback_ms: i64)
        ensures
            final(self).start_at_input@ == datetime_input_text(sat_i64(now_ms - lookback_ms)),
            final(self).end_at_input@ == datetime_input_text(now_ms),
            final(self).name_lookup_input@ == old(self).name_lookup_input@,
            final(self).name_suggestions@ == old(self).name_suggestions@,
            final(self).same_playback(old(self)),
            final(self).same_sessions(old(self)),
            final(self).same_scans(old(self)),
            final(self).same_allocation(old(self)),
    {
        let start_ms = sat_sub(now_ms, lookback_ms);
        self.start_at_input = format_datetime_input(start_ms);
        self.end_at_input = format_datetime_input(now_ms);
    }

    /// Sets the range to the `lookback_ms` up to the current time.
    pub fn apply_preset_range(&mut self, lookback_ms: i64)
        ensures
            exists|now_ms: i64|
                now_ms >= 0 && final(self).start_at_input@ == datetime_input_text(
                    sat_i64(now_ms - lookback_ms),
                ) && final(self).end_at_input@ == #[trigger] datetime_input_text(now_ms),
            final(self).name_lookup_input@ == old(self).name_lookup_input@,
            final(self).name_suggestions@ == old(self).name_suggestions@,
            final(self).same_playback(old(self)),
            final(self).same_sessions(old(self)),
            final(self).same_scans(old(self)),
            final(self).same_allocation(old(self)),
    {
        let now_ms = now_unix_ms();
        self.apply_preset_range_at(now_ms, lookback_ms);
    }

    /// Sets the range to that of a stored session.
    pub fn apply_session_range(&mut self, first_ms: i64, last_ms: i64)
        ensures
            final(self).start_at_input@ == datetime_input_text(first_ms),
            final(self).end_at_input@ == datetime_input_text(last_ms),
            final(self).name_lookup_input@ == old(self).name_lookup_input@,
            final(self).name_suggestions@ == old(self).name_suggestions@,
            final(self).same_playback(old(self)),
            final(self).same_sessions(old(self)),
            final(self).same_scans(old(self)),
            final(self).same_allocation(old(self)),
    {
        self.start_at_input = format_datetime_input(first_ms);
        self.end_at_input = format_datetime_input(last_ms);
    }

    /// Takes the loaded list of stored sessions.
    pub fn set_sessions_list(&mut self, sessions: Vec<I>)
        ensures
            final(self).sessions_list@ == sessions@,
            !final(self).sessions_loading,
            final(self).same_inputs(old(self)),
            final(self).same_playback(old(self)),
            final(self).same_scans(old(self)),
            final(self).same_allocation(old(self)),
    {
        self.sessions_list = sessions;
        self.sessions_loading = false;
    }

    /// Marks the session list as loading.
    pub fn mark_sessions_loading(&mut self)
        ensures
            final(self).sessions_loading,
            final(self).sessions_list@ == old(self).sessions_list@,
            final(self).same_inputs(old(self)),
            final(self).same_playback(old(self)),
            final(self).same_scans(old(self)),
            final(self).same_allocation(old(self)),
    {
        self.sessions_loading = true;
    }

    /// The first half of a playback tick at clock reading `now`: while
    /// playing with samples, the tick reference moves to `now`, and the whole
    /// milliseconds since the previous reference come back when there was one
    /// and they are not zero. The cursor then moves by those milliseconds
    /// times the playback speed (`advance_cursor`).
    pub fn begin_tick(&mut self, now: Instant) -> (r: Option<u128>)
        ensures
            !(old(self).is_playing && old(self).samples@.len() > 0) ==> r is None
                && final(self).last_tick_at == old(self).last_tick_at,
            old(self).is_playing && old(self).samples@.len() > 0 ==> final(self).last_tick_at
                == Some(now),
            old(self).last_tick_at is None ==> r is None,
            r matches Some(ms) ==> ms > 0,
            final(self).is_playing == old(self).is_playing,
            final(self).cursor_ms == old(self).cursor_ms,
            final(self).is_loading == old(self).is_loading,
            final(self).samples@ == old(self).samples@,
            final(self).source == old(self).source,
            final(self).message@ == old(self).message@,
            final(self).same_inputs(old(self)),
            final(self).same_sessions(old(self)),
            final(self).same_scans(old(self)),
            final(self).same_allocation(old(self)),
    {
        if !self.is_playing || self.samples.len() == 0 {
            return None;
        }
        let last_tick = match self.last_tick_at {
            Some(t) => t,
            None => {
                self.last_tick_at = Some(now);
                return None;
            },
        };
        let elapsed_ms = duration_as_millis(saturating_duration_since(now, last_tick));
        self.last_tick_at = Some(now);
        if elapsed_ms == 0 {
            return None;
        }
        Some(elapsed_ms)
    }

    /// The second half of a playback tick: the cursor (or the first sample's
    /// time) moves by `delta_ms`; reaching the last sample stops playback
    /// there, otherwise the cursor stays within the loaded span.
    pub fn advance_cursor(&mut self, delta_ms: i64)
        requires
            old(self).ends_ordered(),
        ensures
            old(self).samples@.len() == 0 ==> final(self).cursor_ms == old(self).cursor_ms
                && final(self).is_playing == old(self).is_playing && final(self).last_tick_at
                == old(self).last_tick_at,
            old(self).samples@.len() > 0 ==> {
                let first = old(self).samples@[0].collected_at_ms;
                let last = old(self).last_ms();
                let base = match old(self).cursor_ms {
                    Some(c) => c,
                    None => first,
                };
                let next = sat_i64(base + delta_ms);
                &&& next >= last ==> {
                    &&& final(self).cursor_ms == Some(last)
                    &&& !final(self).is_playing
                    &&& final(self).last_tick_at is None
                }
                &&& next < last ==> {
                    &&& final(self).cursor_ms == Some(clamp_i64(next, first, last))
                    &&& final(self).is_playing == old(self).is_playing
                    &&& final(self).last_tick_at == old(self).last_tick_at
                }
            },
            final(self).cursor_within_span(),
            final(self).is_loading == old(self).is_loading,
            final(self).samples@ == old(self).samples@,
            final(self).source == old(self).source,
            final(self).message@ == old(self).message@,
            final(self).same_inputs(old(self)),
            final(self).same_sessions(old(self)),
            final(self).same_scans(old(self)),
            final(self).same_allocation(old(self)),
    {
        let n = self.samples.len();
        if n == 0 {
            return;
        }
        let first = self.samples[0].collected_at_ms;
        let last = self.samples[n - 1].collected_at_ms;
        let cursor = match self.cursor_ms {
            Some(c) => c,
            None => first,
        };
        let next = sat_add(cursor, delta_ms);
        if next >= last {
            self.cursor_ms = Some(last);
            self.is_playing = false;
            self.last_tick_at = None;
        } else {
            let clamped = if next < first {
                first
            } else {
                next
            };
            self.cursor_ms = Some(clamped);
        }
    }
}

/// The number of leading points collected at or before `cursor_ms`; none
/// without a cursor.
pub fn visible_count<T>(points: &Vec<ReplayPoint<T>>, cursor_ms: Option<i64>) -> (r: usize)
    ensures
        cursor_ms is None ==> r == 0,
        cursor_ms matches Some(c) ==> is_visible_prefix(points@, c, r as int),
{
    let c = match cursor_ms {
        Some(c) => c,
        None => {
            return 0;
        },
    };
    let mut i: usize = 0;
    while i < points.len()
        invariant
            cursor_ms == Some(c),
            i <= points@.len(),
            forall|k: int| 0 <= k < i ==> #[trigger] points@[k].collected_at_ms <= c,
        decreases points@.len() - i,
    {
        if points[i].collected_at_ms > c {
            return i;
        }
        i = i + 1;
    }
    i
}

/// The number of points collected at or before `cursor_ms` in a series
/// ordered by time, found by bisection; none without a cursor. On a series
/// out of order the count is some number up to its length.
pub fn sorted_visible_count<T>(points: &Vec<ReplayPoint<T>>, cursor_ms: Option<i64>) -> (r: usize)
    ensures
        r <= points@.len(),
        cursor_ms is None ==> r == 0,
        cursor_ms matches Some(c) ==> (in_time_order(points@) ==> is_visible_prefix(
            points@,
            c,
            r as int,
        )),
{
    let c = match cursor_ms {
        Some(c) => c,
        None => {
            return 0;
        },
    };
    let mut lo: usize = 0;
    let mut hi: usize = points.len();
    while lo < hi
        invariant
            lo <= hi <= points@.len(),
            in_time_order(points@) ==> forall|k: int|
                0 <= k < lo ==> #[trigger] points@[k].collected_at_ms <= c,
            in_time_order(points@) ==> forall|k: int|
                hi <= k < points@.len() ==> #[trigger] points@[k].collected_at_ms > c,
        decreases hi - lo,
    {
        let mid = lo + (hi - lo) / 2;
        if points[mid].collected_at_ms <= c {
            proof {
                if in_time_order(points@) {
                    assert forall|k: int| 0 <= k < mid + 1 implies #[trigger] points@[k].collected_at_ms
                        <= c by {
                        assert(points@[k].collected_at_ms <= points@[mid as int].collected_at_ms);
                    }
                }
            }
            lo = mid + 1;
        } else {
            proof {
                if in_time_order(points@) {
                    assert forall|k: int| mid <= k < points@.len() implies #[trigger] points@[
                        k
                    ].collected_at_ms > c by {
                        assert(points@[mid as int].collected_at_ms <= points@[k].collected_at_ms);
                    }
                }
            }
            hi = mid;
        }
    }
    lo
}

/// Seeking to an offset that lies within the loaded span and reading the
/// position back gives that offset over the span: the cursor placed by
/// `seek_to_offset` is exactly `offset_ms` after the first sample.
pub proof fn lemma_seek_then_ratio<S, A, I>(
    before: ReplayState<S, A, I>,
    after: ReplayState<S, A, I>,
    offset_ms: i64,
)
    requires
        before.samples@.len() > 0,
        before.ends_ordered(),
        0 <= offset_ms <= sat_i64(before.last_ms() - before.samples@[0].collected_at_ms),
        after.samples@ == before.samples@,
        after.cursor_ms == Some(sat_i64(before.samples@[0].collected_at_ms + offset_ms)),
    ensures
        sat_i64(before.last_ms() - before.samples@[0].collected_at_ms) == 0 ==> after.ratio_terms_of()
            == RatioTerms::One,
        sat_i64(before.last_ms() - before.samples@[0].collected_at_ms) > 0 ==> after.ratio_terms_of()
            == (RatioTerms::Quotient {
            offset_ms: offset_ms,
            span_ms: sat_i64(before.last_ms() - before.samples@[0].collected_at_ms),
        }),
{
    assert(after.samples@[0] == before.samples@[0]);
    assert(after.last_ms() == before.last_ms());
}

/// Wherever the cursor lies within the span, the position it gives is a
/// fraction between 0 and 1: its offset is neither negative nor past the span.
pub proof fn lemma_ratio_within_unit<S, A, I>(state: ReplayState<S, A, I>)
    requires
        state.ends_ordered(),
        state.cursor_within_span(),
    ensures
        state.ratio_terms_of() matches RatioTerms::Quotient { offset_ms, span_ms } ==> 0 <= offset_ms
            <= span_ms && span_ms > 0,
{
}

} // verus!
