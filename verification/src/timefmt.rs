use time::format_description::well_known::Rfc3339;
use time::{OffsetDateTime, PrimitiveDateTime};

use vstd::prelude::*;

use crate::calendar::{civil_from_day, day_number, is_valid_date, lemma_civil_from_day};
use crate::text::{
    all_digits, append_chars, append_vec, chars_of, dec, fmt_i64_padded, fmt_u64_padded, is_digit,
    lemma_dec_digits, lemma_repeat_char, lemma_trim_end_at, lemma_trim_start_at, signed_zero_padded,
    string_of, trim, trim_chars, zero_pad,
};

verus! {

/// The earliest unix time (seconds) the time crate represents: -9999-01-01T00:00:00Z.
pub const MIN_UNIX_SECONDS: i64 = -377705116800;

/// The latest unix time (seconds) the time crate represents: 9999-12-31T23:59:59Z.
pub const MAX_UNIX_SECONDS: i64 = 253402300799;

// ---------------------------------------------------------------------------
// Calls into the time crate
// ---------------------------------------------------------------------------

/// The calendar date (year, month, day) of the UTC day that contains unix
/// time `secs`: the proleptic Gregorian date of its day number.
pub open spec fn utc_date_of(secs: int) -> (int, int, int) {
    civil_from_day(secs / 86400)
}

/// The RFC 3339 text of a UTC date-time with no fraction of a second:
/// `YYYY-MM-DDTHH:MM:SSZ`.
pub open spec fn rfc3339_utc_text(y: int, mo: int, d: int, h: int, mi: int, s: int) -> Seq<char> {
    signed_zero_padded(y, 4) + "-"@ + zero_pad(dec(mo as nat), 2) + "-"@ + zero_pad(
        dec(d as nat),
        2,
    ) + "T"@ + zero_pad(dec(h as nat), 2) + ":"@ + zero_pad(dec(mi as nat), 2) + ":"@ + zero_pad(
        dec(s as nat),
        2,
    ) + "Z"@
}

/// The RFC 3339 text the time crate writes for the UTC date-time at unix
/// time `secs`, or `None` when it refuses to: outside the timestamps it
/// represents, or for a year outside 0 to 9999.
pub open spec fn rfc3339_text_of(secs: int) -> Option<Seq<char>> {
    let date = utc_date_of(secs);
    if MIN_UNIX_SECONDS <= secs <= MAX_UNIX_SECONDS && 0 <= date.0 <= 9999 {
        Some(
            rfc3339_utc_text(
                date.0,
                date.1,
                date.2,
                (secs % 86400) / 3600,
                (secs % 3600) / 60,
                secs % 60,
            ),
        )
    } else {
        None
    }
}

/// What the time crate reads from `text` with the format description
/// `description`, taken as UTC and counted in nanoseconds since the unix
/// epoch; `None` when the description or the text does not parse.
pub uninterp spec fn parsed_utc_nanos(text: Seq<char>, description: Seq<char>) -> Option<int>;

/// The format description of a date and a time of day separated by a space.
pub open spec fn spaced_format() -> Seq<char> {
    "[year]-[month]-[day] [hour]:[minute]:[second]"@
}

/// The format description of a date and a time of day separated by `T`.
pub open spec fn t_seconds_format() -> Seq<char> {
    "[year]-[month]-[day]T[hour]:[minute]:[second]"@
}

/// The format description of a date and a time to the minute separated by `T`.
pub open spec fn t_minutes_format() -> Seq<char> {
    "[year]-[month]-[day]T[hour]:[minute]"@
}

/// The fields make a date-time with a four-digit year.
pub open spec fn is_plain_datetime(y: int, mo: int, d: int, h: int, mi: int, s: int) -> bool {
    &&& 0 <= y <= 9999
    &&& is_valid_date(y, mo, d)
    &&& 0 <= h < 24
    &&& 0 <= mi < 60
    &&& 0 <= s < 60
}

/// The unix time in seconds of the UTC date-time with the given fields.
pub open spec fn unix_seconds_of(y: int, mo: int, d: int, h: int, mi: int, s: int) -> int {
    day_number(y, mo, d) * 86400 + h * 3600 + mi * 60 + s
}

/// `OffsetDateTime::from_unix_timestamp` followed by the date and time
/// accessors. The time crate accepts exactly the timestamps from
/// -9999-01-01 to 9999-12-31; the time of day is the remainder of the
/// timestamp modulo a day; the date is the proleptic Gregorian date of the
/// day (`utc_date_of`).
#[verifier::external_body]
fn utc_fields(secs: i64) -> (r: Option<(i32, u8, u8, u8, u8, u8)>)
    ensures
        r is Some <==> MIN_UNIX_SECONDS <= secs <= MAX_UNIX_SECONDS,
        r matches Some(f) ==> {
            &&& (f.0 as int, f.1 as int, f.2 as int) == utc_date_of(secs as int)
            &&& f.3 as int == (secs as int % 86400) / 3600
            &&& f.4 as int == (secs as int % 3600) / 60
            &&& f.5 as int == secs as int % 60
        },
{
    match OffsetDateTime::from_unix_timestamp(secs) {
        Ok(dt) => Some((dt.year(), u8::from(dt.month()), dt.day(), dt.hour(), dt.minute(), dt.second())),
        Err(_) => None,
    }
}

/// `OffsetDateTime::from_unix_timestamp` followed by formatting as RFC 3339:
/// for a whole second in UTC the time crate writes the four-digit year,
/// month, day, `T`, hour, minute, second and `Z`, and refuses years outside
/// 0 to 9999 (`rfc3339_text_of`).
#[verifier::external_body]
fn utc_rfc3339(secs: i64) -> (r: Option<String>)
    ensures
        match r {
            Some(t) => rfc3339_text_of(secs as int) == Some(t@),
            None => rfc3339_text_of(secs as int) is None,
        },
{
    match OffsetDateTime::from_unix_timestamp(secs) {
        Ok(dt) => dt.format(&Rfc3339).ok(),
        Err(_) => None,
    }
}

/// `time::format_description::parse` of `description`, then
/// `PrimitiveDateTime::parse` of `text`, taken as UTC
/// (`assume_utc().unix_timestamp_nanos()`); the result is named by
/// `parsed_utc_nanos`. Of a text that spells a date-time with a four-digit
/// year, two-digit month, day, hour, minute and second, separated by `-`, a
/// space and `:`, the crate reads that date-time with the spaced format, and
/// reads nothing with the formats that expect `T` where the space stands.
#[verifier::external_body]
fn parse_utc_nanos(text: &str, description: &str) -> (r: Option<i128>)
    ensures
        match r {
            Some(n) => parsed_utc_nanos(text@, description@) == Some(n as int),
            None => parsed_utc_nanos(text@, description@) is None,
        },
        forall|y: int, mo: int, d: int, h: int, mi: int, s: int|
            #![trigger datetime_text(y, mo, d, h, mi, s)]
            is_plain_datetime(y, mo, d, h, mi, s) && text@ == datetime_text(y, mo, d, h, mi, s) ==> {
                &&& description@ == spaced_format() ==> r is Some && r.unwrap() as int
                    == unix_seconds_of(y, mo, d, h, mi, s) * 1_000_000_000
                &&& (description@ == t_seconds_format() || description@ == t_minutes_format())
                    ==> r is None
            },
{
    let Ok(items) = time::format_description::parse(description) else {
        return None;
    };
    match PrimitiveDateTime::parse(text, &items) {
        Ok(parsed) => Some(parsed.assume_utc().unix_timestamp_nanos()),
        Err(_) => None,
    }
}

// ---------------------------------------------------------------------------
// Specifications of the formats
// ---------------------------------------------------------------------------

/// The offset in seconds that a zone of `hours` hours east of UTC gives; the
/// time crate refuses offsets beyond 25 hours, and UTC is used instead.
pub open spec fn effective_offset_seconds(hours: i8) -> int {
    if -25 <= hours <= 25 {
        hours * 3600
    } else {
        0
    }
}

/// `YYYY-MM-DD HH:MM:SS` of given fields.
pub open spec fn datetime_text(y: int, mo: int, d: int, h: int, mi: int, s: int) -> Seq<char> {
    signed_zero_padded(y, 4) + "-"@ + zero_pad(dec(mo as nat), 2) + "-"@ + zero_pad(
        dec(d as nat),
        2,
    ) + " "@ + zero_pad(dec(h as nat), 2) + ":"@ + zero_pad(dec(mi as nat), 2) + ":"@ + zero_pad(
        dec(s as nat),
        2,
    )
}

/// `HH:MM:SS` of given fields.
pub open spec fn clock_text(h: int, mi: int, s: int) -> Seq<char> {
    zero_pad(dec(h as nat), 2) + ":"@ + zero_pad(dec(mi as nat), 2) + ":"@ + zero_pad(
        dec(s as nat),
        2,
    )
}

/// The local unix time of `ms` milliseconds in a zone `hours` east of UTC.
pub open spec fn local_seconds(ms: i64, hours: i8) -> int {
    ms as int / 1000 + effective_offset_seconds(hours)
}

/// Whether the time crate can represent both the UTC and the local time of
/// `ms`; outside this range the conversion of a `SystemTime` panics.
pub open spec fn representable_ms(ms: i64, hours: i8) -> bool {
    ms < 0 || (ms as int / 1000 <= MAX_UNIX_SECONDS && MIN_UNIX_SECONDS <= local_seconds(ms, hours)
        <= MAX_UNIX_SECONDS)
}

/// The text of `format_ts_ms`.
pub open spec fn ts_ms_text(ms: i64, hours: i8) -> Seq<char> {
    if ms < 0 {
        "n/a"@
    } else {
        let l = local_seconds(ms, hours);
        let date = utc_date_of(l);
        datetime_text(date.0, date.1, date.2, (l % 86400) / 3600, (l % 3600) / 60, l % 60)
    }
}

/// The text of `format_hhmmss`.
pub open spec fn hhmmss_text(ms: i64, hours: i8) -> Seq<char> {
    if ms < 0 {
        "n/a"@
    } else {
        let l = local_seconds(ms, hours);
        clock_text((l % 86400) / 3600, (l % 3600) / 60, l % 60)
    }
}

/// The prefix of `s` before the first `c`, or all of `s`.
pub open spec fn before_first(s: Seq<char>, c: char) -> Seq<char>
    decreases s.len(),
{
    if s.len() == 0 {
        s
    } else if s[0] == c {
        Seq::empty()
    } else {
        seq![s[0]] + before_first(s.drop_first(), c)
    }
}

/// `s` without any trailing `c` (`str::trim_end_matches`).
pub open spec fn trim_end_char(s: Seq<char>, c: char) -> Seq<char>
    decreases s.len(),
{
    if s.len() > 0 && s.last() == c {
        trim_end_char(s.drop_last(), c)
    } else {
        s
    }
}

/// `s` with every `a` replaced by `b`.
pub open spec fn replace_char(s: Seq<char>, a: char, b: char) -> Seq<char> {
    s.map_values(|x: char| if x == a { b } else { x })
}

/// The input-field text made from an RFC 3339 text: the part before any
/// fraction of a second, without the trailing `Z`, with `T` replaced by a space.
pub open spec fn input_text_of_rfc3339(t: Seq<char>) -> Seq<char> {
    replace_char(trim_end_char(before_first(t, '.'), 'Z'), 'T', ' ')
}

/// The text shown for a time the time crate cannot write.
pub open spec fn epoch_input_text() -> Seq<char> {
    "1970-01-01 00:00:00"@
}

/// The text of `format_datetime_input`.
pub open spec fn datetime_input_text(unix_ms: i64) -> Seq<char> {
    match rfc3339_text_of(unix_ms as int / 1000) {
        Some(t) => input_text_of_rfc3339(t),
        None => epoch_input_text(),
    }
}

/// The formats `parse_datetime_input_to_unix_ms` tries, in order.
pub open spec fn input_formats() -> Seq<Seq<char>> {
    seq![
        "[year]-[month]-[day]T[hour]:[minute]:[second]"@,
        "[year]-[month]-[day]T[hour]:[minute]"@,
        "[year]-[month]-[day] [hour]:[minute]:[second]"@,
    ]
}

/// The first format of `formats[k..]` that reads `text`, and the nanoseconds it reads.
pub open spec fn first_parse(text: Seq<char>, formats: Seq<Seq<char>>, k: int) -> Option<int>
    decreases formats.len() - k,
{
    if k >= formats.len() || k < 0 {
        None
    } else {
        match parsed_utc_nanos(text, formats[k]) {
            Some(n) => Some(n),
            None => first_parse(text, formats, k + 1),
        }
    }
}

/// Integer division rounding toward zero, as Rust's `/` on integers.
pub open spec fn div_toward_zero(a: int, b: int) -> int {
    if a >= 0 {
        a / b
    } else {
        -((-a) / b)
    }
}

/// What `parse_datetime_input_to_unix_ms` gives for `value`.
pub open spec fn parsed_input_ms(value: Seq<char>) -> Result<int, Seq<char>> {
    match first_parse(trim(value), input_formats(), 0) {
        Some(n) => {
            let ms = div_toward_zero(n, 1_000_000);
            if i64::MIN <= ms <= i64::MAX {
                Ok(ms)
            } else {
                Err("datetime is out of supported timestamp range"@)
            }
        },
        None => Err("invalid datetime"@),
    }
}

// ---------------------------------------------------------------------------
// Executable formatting
// ---------------------------------------------------------------------------

/// `YYYY-MM-DD HH:MM:SS` of the given fields.
pub fn format_datetime_fields(y: i32, mo: u8, d: u8, h: u8, mi: u8, s: u8) -> (r: Vec<char>)
    ensures
        r@ == datetime_text(y as int, mo as int, d as int, h as int, mi as int, s as int),
{
    let mut r = fmt_i64_padded(y as i64, 4);
    append_chars(&mut r, "-");
    let v = fmt_u64_padded(mo as u64, 2);
    append_vec(&mut r, &v);
    append_chars(&mut r, "-");
    let v = fmt_u64_padded(d as u64, 2);
    append_vec(&mut r, &v);
    append_chars(&mut r, " ");
    let v = fmt_u64_padded(h as u64, 2);
    append_vec(&mut r, &v);
    append_chars(&mut r, ":");
    let v = fmt_u64_padded(mi as u64, 2);
    append_vec(&mut r, &v);
    append_chars(&mut r, ":");
    let v = fmt_u64_padded(s as u64, 2);
    append_vec(&mut r, &v);
    r
}

/// `HH:MM:SS` of the given fields.
pub fn format_clock_fields(h: u8, mi: u8, s: u8) -> (r: Vec<char>)
    ensures
        r@ == clock_text(h as int, mi as int, s as int),
{
    let mut r = fmt_u64_padded(h as u64, 2);
    append_chars(&mut r, ":");
    let v = fmt_u64_padded(mi as u64, 2);
    append_vec(&mut r, &v);
    append_chars(&mut r, ":");
    let v = fmt_u64_padded(s as u64, 2);
    append_vec(&mut r, &v);
    r
}

fn local_seconds_exec(ms: i64, hours: i8) -> (r: i64)
    requires
        ms >= 0,
    ensures
        r as int == local_seconds(ms, hours),
{
    let off: i64 = if -25 <= hours && hours <= 25 {
        hours as i64 * 3600
    } else {
        0
    };
    ms / 1000 + off
}

/// The date and time of `ms` (unix milliseconds) in a zone `tz_offset_hours`
/// east of UTC, as `YYYY-MM-DD HH:MM:SS`, or `n/a` for a negative time.
pub fn format_ts_ms(ms: i64, tz_offset_hours: i8) -> (r: String)
    requires
        representable_ms(ms, tz_offset_hours),
    ensures
        r@ == ts_ms_text(ms, tz_offset_hours),
{
    if ms < 0 {
        return String::from_str("n/a");
    }
    let l = local_seconds_exec(ms, tz_offset_hours);
    match utc_fields(l) {
        Some((y, mo, d, h, mi, s)) => {
            let v = format_datetime_fields(y, mo, d, h, mi, s);
            string_of(&v)
        },
        None => {
            // the precondition rules this out
            String::from_str("n/a")
        },
    }
}

/// The time of day of `ms` in a zone `tz_offset_hours` east of UTC, as
/// `HH:MM:SS`, or `n/a` for a negative time.
pub fn format_hhmmss(ms: i64, tz_offset_hours: i8) -> (r: String)
    requires
        representable_ms(ms, tz_offset_hours),
    ensures
        r@ == hhmmss_text(ms, tz_offset_hours),
{
    if ms < 0 {
        return String::from_str("n/a");
    }
    let l = local_seconds_exec(ms, tz_offset_hours);
    match utc_fields(l) {
        Some((_, _, _, h, mi, s)) => {
            let v = format_clock_fields(h, mi, s);
            string_of(&v)
        },
        None => String::from_str("n/a"),
    }
}

/// The input-field text of an RFC 3339 text.
pub fn input_text_from_rfc3339(t: &str) -> (r: String)
    ensures
        r@ == input_text_of_rfc3339(t@),
{
    let v = chars_of(t);
    // the part before the first '.'
    let mut end: usize = 0;
    while end < v.len() && v[end] != '.'
        invariant
            end <= v.len(),
            forall|i: int| 0 <= i < end ==> v@[i] != '.',
        decreases v.len() - end,
    {
        end = end + 1;
    }
    proof {
        lemma_before_first(v@, '.', end as int);
    }
    // without trailing 'Z'
    let mut stop: usize = end;
    while stop > 0 && v[stop - 1] == 'Z'
        invariant
            stop <= end <= v.len(),
            trim_end_char(v@.take(end as int), 'Z') == trim_end_char(v@.take(stop as int), 'Z'),
        decreases stop,
    {
        proof {
            assert(v@.take(stop as int).drop_last() =~= v@.take(stop - 1));
        }
        stop = stop - 1;
    }
    proof {
        assert(trim_end_char(v@.take(stop as int), 'Z') == v@.take(stop as int));
    }
    let mut out: Vec<char> = Vec::new();
    let mut i: usize = 0;
    while i < stop
        invariant
            i <= stop <= v.len(),
            out@ == replace_char(v@.take(stop as int), 'T', ' ').take(i as int),
        decreases stop - i,
    {
        let c = if v[i] == 'T' {
            ' '
        } else {
            v[i]
        };
        out.push(c);
        i = i + 1;
        proof {
            assert(out@ =~= replace_char(v@.take(stop as int), 'T', ' ').take(i as int));
        }
    }
    proof {
        assert(out@ =~= replace_char(v@.take(stop as int), 'T', ' '));
    }
    string_of(&out)
}

proof fn lemma_before_first(s: Seq<char>, c: char, k: int)
    requires
        0 <= k <= s.len(),
        forall|i: int| 0 <= i < k ==> s[i] != c,
        k == s.len() || s[k] == c,
    ensures
        before_first(s, c) == s.take(k),
    decreases s.len(),
{
    if s.len() > 0 && k > 0 {
        assert forall|i: int| 0 <= i < k - 1 implies s.drop_first()[i] != c by {
            assert(s.drop_first()[i] == s[i + 1]);
        }
        if k < s.len() {
            assert(s.drop_first()[k - 1] == s[k]);
        }
        lemma_before_first(s.drop_first(), c, k - 1);
        assert(seq![s[0]] + s.drop_first().take(k - 1) =~= s.take(k));
    } else if s.len() > 0 {
        assert(s.take(0) =~= Seq::<char>::empty());
    } else {
        assert(s.take(k) =~= s);
    }
}

/// The unix time `unix_ms` (milliseconds) as the text of a date-time input
/// field, `YYYY-MM-DD HH:MM:SS` in UTC, or the epoch's text when the time
/// crate cannot write the time.
pub fn format_datetime_input(unix_ms: i64) -> (r: String)
    ensures
        r@ == datetime_input_text(unix_ms),
{
    let seconds: i64 = if unix_ms >= 0 {
        ((unix_ms as u64) / 1000) as i64
    } else {
        let mag: u64 = ((-((unix_ms as i128) + 1)) as u64) + 1;
        let up: u64 = mag / 1000 + if mag % 1000 == 0 {
            0
        } else {
            1
        };
        -(up as i64)
    };
    proof {
        if unix_ms < 0 {
            let a = unix_ms as int;
            let mag = -a;
            assert(a / 1000 == -(mag / 1000 + if mag % 1000 == 0 { 0int } else { 1int }))
                by (nonlinear_arith)
                requires
                    mag == -a,
                    mag > 0,
            ;
        }
    }
    match utc_rfc3339(seconds) {
        Some(t) => input_text_from_rfc3339(t.as_str()),
        None => String::from_str("1970-01-01 00:00:00"),
    }
}

/// Milliseconds from nanoseconds, rounding toward zero, or the message for a
/// time beyond the 64-bit range.
pub fn unix_ms_from_nanos(nanos: i128) -> (r: Result<i64, String>)
    ensures
        match r {
            Ok(ms) => {
                let q = div_toward_zero(nanos as int, 1_000_000);
                i64::MIN <= q <= i64::MAX && ms == q
            },
            Err(m) => {
                let q = div_toward_zero(nanos as int, 1_000_000);
                !(i64::MIN <= q <= i64::MAX) && m@
                    == "datetime is out of supported timestamp range"@
            },
        },
{
    let q: i128 = if nanos >= 0 {
        ((nanos as u128) / 1_000_000) as i128
    } else {
        let mag: u128 = ((-(nanos + 1)) as u128) + 1;
        -((mag / 1_000_000) as i128)
    };
    assert(q as int == div_toward_zero(nanos as int, 1_000_000));
    if q >= i64::MIN as i128 && q <= i64::MAX as i128 {
        Ok(q as i64)
    } else {
        Err(String::from_str("datetime is out of supported timestamp range"))
    }
}

/// Reads a date-time input field (`YYYY-MM-DDTHH:MM:SS`, `YYYY-MM-DDTHH:MM`
/// or `YYYY-MM-DD HH:MM:SS`, surrounding white space ignored) as unix
/// milliseconds in UTC.
pub fn parse_datetime_input_to_unix_ms(value: &str) -> (r: Result<i64, String>)
    ensures
        match r {
            Ok(ms) => parsed_input_ms(value@) == Ok::<int, Seq<char>>(ms as int),
            Err(m) => parsed_input_ms(value@) == Err::<int, Seq<char>>(m@),
        },
        forall|ms: i64|
            #![trigger datetime_input_text(ms)]
            0 <= ms && ms as int / 1000 <= MAX_UNIX_SECONDS && value@ == datetime_input_text(ms)
                ==> r == Ok::<i64, String>((ms - ms % 1000) as i64),
{
    let t = trim_chars(value);
    let s = string_of(&t);
    let ghost text = trim(value@);
    let r1 = parse_utc_nanos(s.as_str(), "[year]-[month]-[day]T[hour]:[minute]:[second]");
    let r2 = parse_utc_nanos(s.as_str(), "[year]-[month]-[day]T[hour]:[minute]");
    let r3 = parse_utc_nanos(s.as_str(), "[year]-[month]-[day] [hour]:[minute]:[second]");
    proof {
        reveal_with_fuel(first_parse, 4);
        let f = input_formats();
        assert(f[0] == "[year]-[month]-[day]T[hour]:[minute]:[second]"@);
        assert(f[1] == "[year]-[month]-[day]T[hour]:[minute]"@);
        assert(f[2] == "[year]-[month]-[day] [hour]:[minute]:[second]"@);
        assert(first_parse(text, f, 3) is None);
    }
    let found = match r1 {
        Some(n) => Some(n),
        None => match r2 {
            Some(n) => Some(n),
            None => r3,
        },
    };
    let result = match found {
        Some(n) => unix_ms_from_nanos(n),
        None => Err(String::from_str("invalid datetime")),
    };
    proof {
        assert forall|ms: i64|
            #![trigger datetime_input_text(ms)]
            0 <= ms && ms as int / 1000 <= MAX_UNIX_SECONDS && value@ == datetime_input_text(ms)
                implies result == Ok::<i64, String>((ms - ms % 1000) as i64) by {
            lemma_datetime_input_fields(ms);
            let secs = ms as int / 1000;
            let date = utc_date_of(secs);
            let h = (secs % 86400) / 3600;
            let mi = (secs % 3600) / 60;
            let sec = secs % 60;
            assert(s@ == datetime_text(date.0, date.1, date.2, h, mi, sec));
            assert(r1 is None);
            assert(r2 is None);
            assert(r3 is Some);
            let n = r3.unwrap() as int;
            assert(n == secs * 1_000_000_000);
            assert(div_toward_zero(n, 1_000_000) == secs * 1000) by (nonlinear_arith)
                requires
                    n == secs * 1_000_000_000,
                    secs >= 0,
            ;
            assert(ms - ms % 1000 == secs * 1000);
        }
    }
    result
}

// ---------------------------------------------------------------------------
// Formatting then reading a date-time input
// ---------------------------------------------------------------------------

/// `YYYY-MM-DD` of given fields.
spec fn date_text(y: int, mo: int, d: int) -> Seq<char> {
    signed_zero_padded(y, 4) + "-"@ + zero_pad(dec(mo as nat), 2) + "-"@ + zero_pad(dec(d as nat), 2)
}

/// Every character of `s` is a digit, `-` or `:`.
spec fn plain_text(s: Seq<char>) -> bool {
    forall|i: int| 0 <= i < s.len() ==> is_digit(#[trigger] s[i]) || s[i] == '-' || s[i] == ':'
}

/// A number padded with zeros is made of digits.
proof fn lemma_padded_digits(n: nat, w: nat)
    ensures
        zero_pad(dec(n), w).len() >= 1,
        all_digits(zero_pad(dec(n), w)),
{
    lemma_dec_digits(n);
    let t = dec(n);
    if t.len() < w {
        let k = (w - t.len()) as nat;
        lemma_repeat_char('0', k);
        assert forall|i: int| 0 <= i < zero_pad(t, w).len() implies is_digit(zero_pad(t, w)[i]) by {
            if i < k {
                assert(zero_pad(t, w)[i] == '0');
            } else {
                assert(zero_pad(t, w)[i] == t[i - k]);
            }
        }
    }
}

/// The input text and the RFC 3339 text are the date and the time of day of
/// the same fields, apart by a space or by `T` and a final `Z`, and the two
/// parts are made of digits, `-` and `:`.
proof fn lemma_datetime_parts(y: int, mo: int, d: int, h: int, mi: int, s: int)
    requires
        y >= 0,
    ensures
        datetime_text(y, mo, d, h, mi, s) == date_text(y, mo, d) + " "@ + clock_text(h, mi, s),
        rfc3339_utc_text(y, mo, d, h, mi, s) == date_text(y, mo, d) + "T"@ + clock_text(h, mi, s)
            + "Z"@,
        plain_text(date_text(y, mo, d)),
        plain_text(clock_text(h, mi, s)),
        date_text(y, mo, d).len() >= 1,
        is_digit(date_text(y, mo, d)[0]),
        clock_text(h, mi, s).len() >= 1,
        is_digit(clock_text(h, mi, s).last()),
{
    reveal_strlit("-");
    reveal_strlit(":");
    reveal_strlit(" ");
    reveal_strlit("T");
    reveal_strlit("Z");
    lemma_padded_digits(y as nat, 4);
    lemma_padded_digits(mo as nat, 2);
    lemma_padded_digits(d as nat, 2);
    lemma_padded_digits(h as nat, 2);
    lemma_padded_digits(mi as nat, 2);
    lemma_padded_digits(s as nat, 2);
    let ys = signed_zero_padded(y, 4);
    let ms = zero_pad(dec(mo as nat), 2);
    let ds = zero_pad(dec(d as nat), 2);
    let hs = zero_pad(dec(h as nat), 2);
    let mis = zero_pad(dec(mi as nat), 2);
    let ss = zero_pad(dec(s as nat), 2);
    let dt = date_text(y, mo, d);
    let ct = clock_text(h, mi, s);
    assert(datetime_text(y, mo, d, h, mi, s) =~= dt + " "@ + ct);
    assert(rfc3339_utc_text(y, mo, d, h, mi, s) =~= dt + "T"@ + ct + "Z"@);
    assert forall|i: int| 0 <= i < dt.len() implies is_digit(#[trigger] dt[i]) || dt[i] == '-' || dt[i]
        == ':' by {
        if i < ys.len() {
            assert(dt[i] == ys[i]);
        } else if i < ys.len() + 1 {
        } else if i < ys.len() + 1 + ms.len() {
            assert(dt[i] == ms[i - ys.len() - 1]);
        } else if i < ys.len() + 2 + ms.len() {
        } else {
            assert(dt[i] == ds[i - ys.len() - 2 - ms.len()]);
        }
    }
    assert forall|i: int| 0 <= i < ct.len() implies is_digit(#[trigger] ct[i]) || ct[i] == '-' || ct[i]
        == ':' by {
        if i < hs.len() {
            assert(ct[i] == hs[i]);
        } else if i < hs.len() + 1 {
        } else if i < hs.len() + 1 + mis.len() {
            assert(ct[i] == mis[i - hs.len() - 1]);
        } else if i < hs.len() + 2 + mis.len() {
        } else {
            assert(ct[i] == ss[i - hs.len() - 2 - mis.len()]);
        }
    }
    assert(dt[0] == ys[0]);
    assert(ct.last() == ss.last());
}

/// The input-field text made from the RFC 3339 text of given fields is their
/// date-time text.
proof fn lemma_input_text_of_fields(y: int, mo: int, d: int, h: int, mi: int, s: int)
    requires
        y >= 0,
    ensures
        input_text_of_rfc3339(rfc3339_utc_text(y, mo, d, h, mi, s)) == datetime_text(y, mo, d, h, mi, s),
{
    reveal_strlit(" ");
    reveal_strlit("T");
    reveal_strlit("Z");
    lemma_datetime_parts(y, mo, d, h, mi, s);
    let dt = date_text(y, mo, d);
    let ct = clock_text(h, mi, s);
    let u = dt + "T"@ + ct;
    let t = u + "Z"@;
    assert forall|i: int| 0 <= i < t.len() implies t[i] != '.' by {
        if i < dt.len() {
            assert(t[i] == dt[i]);
        } else if i > dt.len() && i < u.len() {
            assert(t[i] == ct[i - dt.len() - 1]);
        }
    }
    lemma_before_first(t, '.', t.len() as int);
    assert(t.take(t.len() as int) =~= t);
    assert(t.drop_last() =~= u);
    assert(u.last() == ct.last());
    assert(t.last() == 'Z');
    assert(u.last() != 'Z');
    assert(trim_end_char(u, 'Z') == u);
    assert(trim_end_char(t, 'Z') == trim_end_char(t.drop_last(), 'Z'));
    assert(trim_end_char(t, 'Z') == u);
    assert(replace_char(u, 'T', ' ') =~= dt + " "@ + ct) by {
        assert forall|i: int| 0 <= i < u.len() implies replace_char(u, 'T', ' ')[i] == (dt + " "@
            + ct)[i] by {
            if i < dt.len() {
                assert(u[i] == dt[i]);
            } else if i > dt.len() {
                assert(u[i] == ct[i - dt.len() - 1]);
            }
        }
    }
}

/// A date-time text has no white space around it.
proof fn lemma_trim_datetime(y: int, mo: int, d: int, h: int, mi: int, s: int)
    requires
        y >= 0,
    ensures
        trim(datetime_text(y, mo, d, h, mi, s)) == datetime_text(y, mo, d, h, mi, s),
{
    reveal_strlit(" ");
    lemma_datetime_parts(y, mo, d, h, mi, s);
    let t = datetime_text(y, mo, d, h, mi, s);
    let dt = date_text(y, mo, d);
    let ct = clock_text(h, mi, s);
    assert(t[0] == dt[0]);
    assert(t.last() == ct.last());
    lemma_trim_start_at(t, 0);
    assert(t.skip(0) =~= t);
    lemma_trim_end_at(t, t.len() as int);
    assert(t.take(t.len() as int) =~= t);
}

/// From 1970 to the end of 9999, the input-field text of a unix time spells
/// the UTC date-time of its whole second, which the fields name exactly.
pub proof fn lemma_datetime_input_fields(ms: i64)
    requires
        0 <= ms,
        ms as int / 1000 <= MAX_UNIX_SECONDS,
    ensures
        ({
            let secs = ms as int / 1000;
            let date = utc_date_of(secs);
            let h = (secs % 86400) / 3600;
            let mi = (secs % 3600) / 60;
            let s = secs % 60;
            &&& is_plain_datetime(date.0, date.1, date.2, h, mi, s)
            &&& datetime_input_text(ms) == datetime_text(date.0, date.1, date.2, h, mi, s)
            &&& unix_seconds_of(date.0, date.1, date.2, h, mi, s) == secs
            &&& trim(datetime_input_text(ms)) == datetime_input_text(ms)
        }),
{
    let secs = ms as int / 1000;
    let day = secs / 86400;
    lemma_civil_from_day(day);
    let date = utc_date_of(secs);
    let h = (secs % 86400) / 3600;
    let mi = (secs % 3600) / 60;
    let s = secs % 60;
    lemma_input_text_of_fields(date.0, date.1, date.2, h, mi, s);
    lemma_trim_datetime(date.0, date.1, date.2, h, mi, s);
    assert(secs % 86400 == h * 3600 + mi * 60 + s);
    assert(secs == day * 86400 + secs % 86400);
}

} // verus!
