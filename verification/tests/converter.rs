use qog::civil::{convert, clock, is_leap, CivilTime};

fn civil(
    year: u128,
    month: u8,
    day: u8,
    hour: u8,
    minute: u8,
    second: u8,
    millisecond: u16,
) -> CivilTime {
    CivilTime { year, month, day, hour, minute, second, millisecond }
}

#[test]
fn epoch_origin() {
    // 0 ms since the epoch is 1970-01-01 08:00:00.000 in the fixed UTC+8 zone.
    assert_eq!(convert(0), civil(1970, 1, 1, 8, 0, 0, 0));
}

#[test]
fn clock_decomposition() {
    // 13:14:15.678 of an arbitrary day.
    let milli = 123u128 * 86_400_000 + 13 * 3_600_000 + 14 * 60_000 + 15 * 1000 + 678;
    assert_eq!(clock(milli), (13, 14, 15, 678));
    assert_eq!(clock(0), (0, 0, 0, 0));
    assert_eq!(clock(86_399_999), (23, 59, 59, 999));
}

#[test]
fn leap_year_rule() {
    assert!(is_leap(4));
    assert!(is_leap(1996));
    assert!(is_leap(2000));
    assert!(is_leap(2400));
    assert!(!is_leap(1));
    assert!(!is_leap(1900));
    assert!(!is_leap(1970));
    assert!(!is_leap(2100));
    for year in 1u128..=10_000 {
        let expected = year % 4 == 0 && (year % 100 != 0 || year % 400 == 0);
        assert_eq!(is_leap(year), expected);
    }
}

#[test]
fn four_hundred_year_boundary() {
    // 2000 is a leap year although it is a century year.
    // 951753600000 ms is local midnight opening 2000-02-29.
    assert_eq!(convert(951_753_600_000), civil(2000, 2, 29, 0, 0, 0, 0));
    assert_eq!(convert(951_753_599_999), civil(2000, 2, 28, 23, 59, 59, 999));
    // A day later: March comes after the leap day.
    assert_eq!(convert(951_840_000_000), civil(2000, 3, 1, 0, 0, 0, 0));
    // 2400 is again a leap year.
    assert_eq!(convert(13_574_534_400_000), civil(2400, 2, 29, 0, 0, 0, 0));
}

#[test]
fn century_boundary() {
    // 2100 is a century year off the 400-year grid: no February 29.
    // 4107513600000 ms is local midnight opening 2100-03-01.
    assert_eq!(convert(4_107_513_600_000), civil(2100, 3, 1, 0, 0, 0, 0));
    assert_eq!(convert(4_107_513_599_999), civil(2100, 2, 28, 23, 59, 59, 999));
}

#[test]
fn fields_always_in_range() {
    let samples: [u128; 8] = [
        0,
        1,
        999,
        86_399_999,
        951_753_600_000,
        1_700_000_000_000,
        4_107_513_599_999,
        123_456_789_012_345,
    ];
    for &m in samples.iter() {
        let c = convert(m);
        assert!(c.year >= 1);
        assert!((1..=12).contains(&c.month));
        let leap = is_leap(c.year);
        let dim: u8 = match c.month {
            2 => {
                if leap {
                    29
                } else {
                    28
                }
            }
            4 | 6 | 9 | 11 => 30,
            _ => 31,
        };
        assert!(c.day >= 1 && c.day <= dim);
        assert!(c.hour <= 23);
        assert!(c.minute <= 59);
        assert!(c.second <= 59);
        assert!(c.millisecond <= 999);
    }
}
