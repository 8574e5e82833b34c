use system_monitor::clock::{now_unix_ms, unix_ms_from_clock};
use system_monitor::timefmt::{
    format_datetime_input, format_hhmmss, format_ts_ms, parse_datetime_input_to_unix_ms,
};
use system_monitor::units::{format_bytes, format_elapsed};

#[test]
fn bytes_below_a_kibibyte_are_plain() {
    assert_eq!(format_bytes(0), "0 B");
    assert_eq!(format_bytes(1023), "1023 B");
}

#[test]
fn bytes_in_kibibytes_have_one_decimal() {
    assert_eq!(format_bytes(1024), "1.0 KB");
    assert_eq!(format_bytes(1536), "1.5 KB");
    assert_eq!(format_bytes(1280), "1.2 KB");
    assert_eq!(format_bytes(1048575), "1024.0 KB");
}

#[test]
fn bytes_in_mebibytes_and_gibibytes() {
    assert_eq!(format_bytes(1048576), "1.0 MB");
    assert_eq!(format_bytes(5 * 1048576 + 524288), "5.5 MB");
    assert_eq!(format_bytes(1073741824), "1.00 GB");
    assert_eq!(format_bytes(1610612736), "1.50 GB");
}

#[test]
fn the_largest_count_rounds_to_two_to_the_sixty_four() {
    assert_eq!(format_bytes(u64::MAX), "17179869184.00 GB");
}

#[test]
fn elapsed_omits_leading_zero_units() {
    assert_eq!(format_elapsed(0), "0s");
    assert_eq!(format_elapsed(59), "59s");
    assert_eq!(format_elapsed(61), "1m 1s");
    assert_eq!(format_elapsed(3600), "1h 0m 0s");
    assert_eq!(format_elapsed(3661), "1h 1m 1s");
}

#[test]
fn timestamps_before_the_epoch_are_not_shown() {
    assert_eq!(format_ts_ms(-1, 2), "n/a");
    assert_eq!(format_hhmmss(-5, 0), "n/a");
}

#[test]
fn timestamps_in_utc_and_in_a_zone() {
    assert_eq!(format_ts_ms(0, 0), "1970-01-01 00:00:00");
    assert_eq!(format_ts_ms(0, 2), "1970-01-01 02:00:00");
    assert_eq!(format_ts_ms(1_700_000_000_999, 0), "2023-11-14 22:13:20");
    assert_eq!(format_ts_ms(1_700_000_000_000, -3), "2023-11-14 19:13:20");
}

#[test]
fn an_offset_beyond_a_day_falls_back_to_utc() {
    assert_eq!(format_ts_ms(1_700_000_000_000, 30), "2023-11-14 22:13:20");
}

#[test]
fn clock_text_of_a_timestamp() {
    assert_eq!(format_hhmmss(1_700_000_000_000, 2), "00:13:20");
    assert_eq!(format_hhmmss(0, 0), "00:00:00");
}

#[test]
fn datetime_input_text() {
    assert_eq!(format_datetime_input(1_700_000_000_000), "2023-11-14 22:13:20");
    assert_eq!(format_datetime_input(0), "1970-01-01 00:00:00");
    assert_eq!(format_datetime_input(-1), "1969-12-31 23:59:59");
}

#[test]
fn datetime_input_is_read_in_each_format() {
    assert_eq!(parse_datetime_input_to_unix_ms(" 2023-11-14T22:13:20 "), Ok(1_700_000_000_000));
    assert_eq!(parse_datetime_input_to_unix_ms("2023-11-14T22:13"), Ok(1_699_999_980_000));
    assert_eq!(parse_datetime_input_to_unix_ms("2023-11-14 22:13:20"), Ok(1_700_000_000_000));
}

#[test]
fn unreadable_datetime_input_is_refused() {
    assert_eq!(parse_datetime_input_to_unix_ms("garbage"), Err("invalid datetime".to_string()));
    assert_eq!(parse_datetime_input_to_unix_ms(""), Err("invalid datetime".to_string()));
}

#[test]
fn writing_then_reading_an_input_keeps_whole_seconds() {
    let text = format_datetime_input(1_700_000_000_999);
    assert_eq!(parse_datetime_input_to_unix_ms(&text), Ok(1_700_000_000_000));
}

#[test]
fn clock_readings_become_unix_milliseconds() {
    assert_eq!(unix_ms_from_clock(None), 0);
    assert_eq!(unix_ms_from_clock(Some(5)), 5);
    assert_eq!(unix_ms_from_clock(Some(u128::MAX)), 0);
    assert!(now_unix_ms() > 1_600_000_000_000);
}

#[test]
fn formatting_then_reading_gives_the_whole_second_back() {
    for ms in [
        0_i64,
        999,
        1_000,
        951_782_400_123,
        951_868_799_999,
        1_700_000_123_456,
        4_102_444_800_000,
        253_402_300_799_999,
    ] {
        let text = format_datetime_input(ms);
        assert_eq!(parse_datetime_input_to_unix_ms(&text), Ok(ms - ms % 1000), "{text}");
    }
    assert_eq!(format_datetime_input(951_782_400_123), "2000-02-29 00:00:00");
    assert_eq!(format_datetime_input(253_402_300_799_999), "9999-12-31 23:59:59");
}
