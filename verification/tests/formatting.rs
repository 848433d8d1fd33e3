use qog::civil::CivilTime;
use qog::render::{format_civil, milli_fmt};

#[test]
fn epoch_origin_timestamp() {
    assert_eq!(milli_fmt(0), "1970-01-01 08:00:00.000");
}

#[test]
fn end_to_end_reference() {
    // 1700000000000 ms is 2023-11-14 22:13:20 UTC, hence 06:13:20 the next
    // day in the fixed UTC+8 zone.
    assert_eq!(milli_fmt(1_700_000_000_000), "2023-11-15 06:13:20.000");
}

#[test]
fn millisecond_right_padding() {
    // The millisecond field is right-padded: 7 renders as 700, not 007.
    assert_eq!(milli_fmt(7), "1970-01-01 08:00:00.700");
    assert_eq!(milli_fmt(50), "1970-01-01 08:00:00.500");
    assert_eq!(milli_fmt(123), "1970-01-01 08:00:00.123");
}

#[test]
fn two_digit_left_padding() {
    let c = CivilTime {
        year: 2024,
        month: 3,
        day: 5,
        hour: 7,
        minute: 8,
        second: 9,
        millisecond: 12,
    };
    assert_eq!(format_civil(&c), "2024-03-05 07:08:09.120");
}

#[test]
fn leap_day_timestamp() {
    assert_eq!(milli_fmt(951_753_600_000), "2000-02-29 00:00:00.000");
}

#[test]
fn year_keeps_natural_width() {
    // Day 0 of the proleptic count under UTC+8 still falls in 1970; a year
    // far ahead renders with as many digits as it needs.
    let c = CivilTime {
        year: 823,
        month: 12,
        day: 31,
        hour: 23,
        minute: 59,
        second: 59,
        millisecond: 999,
    };
    assert_eq!(format_civil(&c), "823-12-31 23:59:59.999");
}
