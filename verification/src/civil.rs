//! Epoch-milliseconds to civil-date conversion for the proleptic Gregorian
//! calendar, done entirely in unsigned integer arithmetic.
//!
//! The converter shifts the epoch count to a fixed UTC+8 zone, cuts the day
//! count into 400-year, 100-year, 4-year and single-year cycles, and reads the
//! month out of the cumulative non-leap day table, special-casing February 29.

use vstd::prelude::*;
use vstd::arithmetic::div_mod::{
    lemma_fundamental_div_mod, lemma_fundamental_div_mod_converse, lemma_div_pos_is_pos,
    lemma_mod_division_less_than_divisor,
};

verus! {

pub const MILLIS_PER_SECOND: u128 = 1000;

pub const MILLIS_PER_MINUTE: u128 = 60 * 1000;

pub const MILLIS_PER_HOUR: u128 = 60 * 60 * 1000;

pub const MILLIS_PER_DAY: u128 = 24 * 60 * 60 * 1000;

pub const DAYS_PER_400_YEARS: u128 = 365 * 400 + 97;

pub const DAYS_PER_100_YEARS: u128 = 365 * 100 + 24;

pub const DAYS_PER_4_YEARS: u128 = 365 * 4 + 1;

/// Milliseconds from 0001-01-01 00:00:00 to 1970-01-01 00:00:00, proleptic
/// Gregorian: 719162 days.
pub const ERA_OFFSET_MILLIS: u128 = 62135596800000;

/// The fixed UTC+8 zone offset, in milliseconds.
pub const ZONE_OFFSET_MILLIS: u128 = 8 * 60 * 60 * 1000;

/// Largest accepted epoch count: the era and zone shifts must not overflow.
pub const MAX_EPOCH_MILLIS: u128 = u128::MAX - 62135596800000 - 8 * 60 * 60 * 1000;

/// A civil (calendar-and-clock) instant.
#[derive(Clone, Copy, PartialEq, Eq, Structural, Debug)]
pub struct CivilTime {
    pub year: u128,
    pub month: u8,
    pub day: u8,
    pub hour: u8,
    pub minute: u8,
    pub second: u8,
    pub millisecond: u16,
}

/// The Gregorian rule: every fourth year, except centuries off the
/// four-hundred-year grid.
pub open spec fn is_leap_year(y: int) -> bool {
    y % 4 == 0 && (y % 100 != 0 || y % 400 == 0)
}

/// Days in month `m` (1-based) of year `y`.
pub open spec fn days_in_month(y: int, m: int) -> int {
    if m == 2 {
        if is_leap_year(y) {
            29
        } else {
            28
        }
    } else if m == 4 || m == 6 || m == 9 || m == 11 {
        30
    } else {
        31
    }
}

/// Days of a non-leap year strictly before month `m` (1-based, 1 to 13).
pub open spec fn days_before_month(m: int) -> int {
    if m <= 1 {
        0
    } else if m == 2 {
        31
    } else if m == 3 {
        59
    } else if m == 4 {
        90
    } else if m == 5 {
        120
    } else if m == 6 {
        151
    } else if m == 7 {
        181
    } else if m == 8 {
        212
    } else if m == 9 {
        243
    } else if m == 10 {
        273
    } else if m == 11 {
        304
    } else if m == 12 {
        334
    } else {
        365
    }
}

/// Days from 0001-01-01 to the first day of year `y` (for `y >= 1`).
pub open spec fn days_to_year(y: int) -> int {
    365 * (y - 1) + (y - 1) / 4 - (y - 1) / 100 + (y - 1) / 400
}

/// Zero-indexed day of the year of a civil date.
pub open spec fn day_of_year(c: CivilTime) -> int {
    days_before_month(c.month as int) + (if c.month > 2 && is_leap_year(c.year as int) {
        1int
    } else {
        0int
    }) + c.day - 1
}

/// A well-formed civil instant: the day never exceeds what the month and the
/// leap rule allow.
pub open spec fn valid_civil(c: CivilTime) -> bool {
    &&& 1 <= c.year
    &&& 1 <= c.month <= 12
    &&& 1 <= c.day <= days_in_month(c.year as int, c.month as int)
    &&& c.hour <= 23
    &&& c.minute <= 59
    &&& c.second <= 59
    &&& c.millisecond <= 999
}

/// Milliseconds from 0001-01-01 00:00:00 to the civil instant.
pub open spec fn civil_millis(c: CivilTime) -> int {
    (days_to_year(c.year as int) + day_of_year(c)) * (MILLIS_PER_DAY as int) + c.hour * (
    MILLIS_PER_HOUR as int) + c.minute * (MILLIS_PER_MINUTE as int) + c.second * (MILLIS_PER_SECOND
        as int) + c.millisecond
}

/// Whether `year` is a Gregorian leap year.
pub fn is_leap(year: u128) -> (r: bool)
    ensures
        r == is_leap_year(year as int),
{
    year % 4 == 0 && (year % 100 != 0 || year % 400 == 0)
}

/// Splits the time of day out of a millisecond count: hours, minutes, seconds
/// and milliseconds of the day the instant falls in.
pub fn clock(milli: u128) -> (t: (u128, u128, u128, u128))
    ensures
        t.0 * (MILLIS_PER_HOUR as int) + t.1 * (MILLIS_PER_MINUTE as int) + t.2 * (
        MILLIS_PER_SECOND as int) + t.3 == milli as int % (MILLIS_PER_DAY as int),
        t.0 <= 23,
        t.1 <= 59,
        t.2 <= 59,
        t.3 <= 999,
{
    let mut mils = milli % MILLIS_PER_DAY;
    proof {
        lemma_mod_division_less_than_divisor(milli as int, MILLIS_PER_DAY as int);
    }
    let hour = mils / MILLIS_PER_HOUR;
    proof {
        lemma_fundamental_div_mod(mils as int, MILLIS_PER_HOUR as int);
        lemma_mod_division_less_than_divisor(mils as int, MILLIS_PER_HOUR as int);
        lemma_div_pos_is_pos(mils as int, MILLIS_PER_HOUR as int);
        assert(MILLIS_PER_HOUR == 3600000);
        assert(hour == mils as int / (MILLIS_PER_HOUR as int));
        assert(mils as int == (MILLIS_PER_HOUR as int) * (hour as int) + (mils as int % (
        MILLIS_PER_HOUR as int)));
        assert(hour * MILLIS_PER_HOUR <= mils);
        assert(hour <= 23);
    }
    mils = mils - hour * MILLIS_PER_HOUR;
    let min = mils / MILLIS_PER_MINUTE;
    proof {
        lemma_fundamental_div_mod(mils as int, MILLIS_PER_MINUTE as int);
        lemma_mod_division_less_than_divisor(mils as int, MILLIS_PER_MINUTE as int);
        lemma_div_pos_is_pos(mils as int, MILLIS_PER_MINUTE as int);
    }
    mils = mils - min * MILLIS_PER_MINUTE;
    let sec = mils / MILLIS_PER_SECOND;
    proof {
        lemma_fundamental_div_mod(mils as int, MILLIS_PER_SECOND as int);
        lemma_mod_division_less_than_divisor(mils as int, MILLIS_PER_SECOND as int);
        lemma_div_pos_is_pos(mils as int, MILLIS_PER_SECOND as int);
    }
    mils = mils - sec * MILLIS_PER_SECOND;
    (hour, min, sec, mils)
}

/// `days_to_year` of a year split into Gregorian cycles is the weighted sum
/// of the cycle lengths.
proof fn lemma_days_to_year_cycles(a: int, b: int, c: int, e: int)
    requires
        0 <= a,
        0 <= b <= 3,
        0 <= c <= 24,
        0 <= e <= 3,
    ensures
        days_to_year(1 + 400 * a + 100 * b + 4 * c + e) == 146097 * a + 36524 * b + 1461 * c + 365
            * e,
{
    let y = 400 * a + 100 * b + 4 * c + e;
    lemma_fundamental_div_mod_converse(y, 4, 100 * a + 25 * b + c, e);
    lemma_fundamental_div_mod_converse(y, 100, 4 * a + b, 4 * c + e);
    lemma_fundamental_div_mod_converse(y, 400, a, 100 * b + 4 * c + e);
}

/// The year that closes a 4-year cycle is a leap year, except when it closes
/// a 100-year cycle short of the 400-year boundary; the hypothesis rules that
/// case out, which is exactly what the quotient corrections arrange.
proof fn lemma_cycle_end_leap(a: int, b: int, c: int)
    requires
        0 <= a,
        0 <= b <= 3,
        0 <= c <= 24,
        c == 24 ==> b == 3,
    ensures
        is_leap_year(400 * a + 100 * b + 4 * c + 4),
{
    let y = 400 * a + 100 * b + 4 * c + 4;
    lemma_fundamental_div_mod_converse(y, 4, 100 * a + 25 * b + c + 1, 0);
    if c == 24 {
        lemma_fundamental_div_mod_converse(y, 400, a + 1, 0);
    } else {
        lemma_fundamental_div_mod_converse(y, 100, 4 * a + b, 4 * c + 4);
    }
}

/// Dividing `x + 1` steps the quotient exactly when `d` divides `x + 1`.
proof fn lemma_div_step(x: int, d: int)
    requires
        0 <= x,
        2 <= d,
    ensures
        (x + 1) / d == x / d + if (x + 1) % d == 0 {
            1int
        } else {
            0int
        },
{
    lemma_fundamental_div_mod(x, d);
    lemma_mod_division_less_than_divisor(x, d);
    lemma_div_pos_is_pos(x, d);
    let q = x / d;
    let r = x % d;
    if r == d - 1 {
        assert(x + 1 == (q + 1) * d + 0) by (nonlinear_arith)
            requires
                x == d * q + r,
                r == d - 1,
        ;
        lemma_fundamental_div_mod_converse(x + 1, d, q + 1, 0);
    } else {
        assert(x + 1 == q * d + (r + 1)) by (nonlinear_arith)
            requires
                x == d * q + r,
        ;
        lemma_fundamental_div_mod_converse(x + 1, d, q, r + 1);
    }
}

/// From one year's first day to the next lies exactly that year's length.
proof fn lemma_days_to_year_next(y: int)
    requires
        1 <= y,
    ensures
        days_to_year(y + 1) == days_to_year(y) + if is_leap_year(y) {
            366int
        } else {
            365int
        },
{
    lemma_div_step(y - 1, 4);
    lemma_div_step(y - 1, 100);
    lemma_div_step(y - 1, 400);
    if y % 400 == 0 {
        lemma_fundamental_div_mod(y, 400);
        lemma_fundamental_div_mod_converse(y, 100, 4 * (y / 400), 0);
    }
    if y % 100 == 0 {
        lemma_fundamental_div_mod(y, 100);
        lemma_fundamental_div_mod_converse(y, 4, 25 * (y / 100), 0);
    }
}

/// `days_to_year` grows by at least a full year length between distinct
/// years.
proof fn lemma_days_to_year_grows(y1: int, y2: int)
    requires
        1 <= y1 < y2,
    ensures
        days_to_year(y1) + (if is_leap_year(y1) {
            366int
        } else {
            365int
        }) <= days_to_year(y2),
    decreases y2 - y1,
{
    lemma_days_to_year_next(y1);
    if y1 + 1 < y2 {
        lemma_days_to_year_grows(y1 + 1, y2);
    }
}

/// The day of the year of a valid civil date stays inside its year.
proof fn lemma_day_of_year_bounds(c: CivilTime)
    requires
        valid_civil(c),
    ensures
        0 <= day_of_year(c) < if is_leap_year(c.year as int) {
            366int
        } else {
            365int
        },
{
}

/// Within one year, the day of the year determines month and day.
proof fn lemma_day_of_year_inj(c1: CivilTime, c2: CivilTime)
    requires
        valid_civil(c1),
        valid_civil(c2),
        c1.year == c2.year,
        day_of_year(c1) == day_of_year(c2),
    ensures
        c1.month == c2.month,
        c1.day == c2.day,
{
}

/// Two valid civil instants at the same millisecond distance from the era
/// origin are the same instant: a hand-computed date round-trips through its
/// millisecond count back to exactly itself.
pub proof fn lemma_civil_millis_injective(c1: CivilTime, c2: CivilTime)
    requires
        valid_civil(c1),
        valid_civil(c2),
        civil_millis(c1) == civil_millis(c2),
    ensures
        c1 == c2,
{
    lemma_day_of_year_bounds(c1);
    lemma_day_of_year_bounds(c2);
    if c1.year > 1 {
        lemma_days_to_year_grows(1, c1.year as int);
    }
    if c2.year > 1 {
        lemma_days_to_year_grows(1, c2.year as int);
    }
    let dd1 = days_to_year(c1.year as int) + day_of_year(c1);
    let dd2 = days_to_year(c2.year as int) + day_of_year(c2);
    let t1 = c1.hour * 3600000 + c1.minute * 60000 + c1.second * 1000 + c1.millisecond;
    let t2 = c2.hour * 3600000 + c2.minute * 60000 + c2.second * 1000 + c2.millisecond;
    lemma_fundamental_div_mod_converse(civil_millis(c1), 86400000, dd1, t1);
    lemma_fundamental_div_mod_converse(civil_millis(c2), 86400000, dd2, t2);
    assert(dd1 == dd2);
    assert(t1 == t2);
    if c1.year < c2.year {
        lemma_days_to_year_grows(c1.year as int, c2.year as int);
    }
    if c2.year < c1.year {
        lemma_days_to_year_grows(c2.year as int, c1.year as int);
    }
    assert(c1.year == c2.year);
    lemma_day_of_year_inj(c1, c2);
    lemma_fundamental_div_mod_converse(
        t1,
        3600000,
        c1.hour as int,
        c1.minute * 60000 + c1.second * 1000 + c1.millisecond,
    );
    lemma_fundamental_div_mod_converse(
        t2,
        3600000,
        c2.hour as int,
        c2.minute * 60000 + c2.second * 1000 + c2.millisecond,
    );
    assert(c1.hour == c2.hour);
    lemma_fundamental_div_mod_converse(
        t1 % 3600000,
        60000,
        c1.minute as int,
        c1.second * 1000 + c1.millisecond,
    );
    lemma_fundamental_div_mod_converse(
        t2 % 3600000,
        60000,
        c2.minute as int,
        c2.second * 1000 + c2.millisecond,
    );
    assert(c1.minute == c2.minute);
    lemma_fundamental_div_mod_converse(
        (t1 % 3600000) % 60000,
        1000,
        c1.second as int,
        c1.millisecond as int,
    );
    lemma_fundamental_div_mod_converse(
        (t2 % 3600000) % 60000,
        1000,
        c2.second as int,
        c2.millisecond as int,
    );
    assert(c1.second == c2.second);
    assert(c1.millisecond == c2.millisecond);
}

/// The cumulative-days table of a non-leap year, one entry per month
/// boundary, 0-indexed.
fn days_before_tab(i: usize) -> (r: u128)
    requires
        i <= 12,
    ensures
        r == days_before_month(i as int + 1),
{
    match i {
        0 => 0,
        1 => 31,
        2 => 59,
        3 => 90,
        4 => 120,
        5 => 151,
        6 => 181,
        7 => 212,
        8 => 243,
        9 => 273,
        10 => 304,
        11 => 334,
        _ => 365,
    }
}

/// Decomposes a count of milliseconds since the Unix epoch into the civil
/// instant it denotes under the fixed UTC+8 offset: the unique valid calendar
/// date and clock reading whose millisecond distance from 0001-01-01
/// 00:00:00 equals the era- and zone-shifted input.
#[verifier::rlimit(60)]
pub fn convert(epoch_millis: u128) -> (c: CivilTime)
    requires
        epoch_millis <= MAX_EPOCH_MILLIS,
    ensures
        valid_civil(c),
        civil_millis(c) == epoch_millis + ERA_OFFSET_MILLIS + ZONE_OFFSET_MILLIS,
{
    let local: u128 = epoch_millis + ERA_OFFSET_MILLIS + ZONE_OFFSET_MILLIS;
    let mut d: u128 = local / MILLIS_PER_DAY;
    let ghost d0: int = d as int;
    proof {
        lemma_fundamental_div_mod(local as int, MILLIS_PER_DAY as int);
        lemma_mod_division_less_than_divisor(local as int, MILLIS_PER_DAY as int);
        lemma_div_pos_is_pos(local as int, MILLIS_PER_DAY as int);
        assert(d0 == local as int / (MILLIS_PER_DAY as int));
        assert(local as int == (MILLIS_PER_DAY as int) * d0 + (local as int % (MILLIS_PER_DAY
            as int)));
    }
    // Cut 400-year cycles.
    let n400: u128 = d / DAYS_PER_400_YEARS;
    proof {
        lemma_fundamental_div_mod(d as int, DAYS_PER_400_YEARS as int);
        lemma_mod_division_less_than_divisor(d as int, DAYS_PER_400_YEARS as int);
        lemma_div_pos_is_pos(d as int, DAYS_PER_400_YEARS as int);
        assert(n400 == d as int / (DAYS_PER_400_YEARS as int));
        assert(d as int == 146097 * (n400 as int) + (d as int % (DAYS_PER_400_YEARS as int)));
    }
    let mut y: u128 = 400 * n400;
    d = d - DAYS_PER_400_YEARS * n400;
    let ghost ra: int = d as int;
    proof {
        assert(d0 == 146097 * (n400 as int) + ra);
        assert(ra <= 146096);
        assert(y as int <= d0);
    }
    // Cut 100-year cycles; the fourth cut of the cycle is pulled back so the
    // closing leap year stays inside it.
    let q100: u128 = d / DAYS_PER_100_YEARS;
    proof {
        lemma_fundamental_div_mod(d as int, DAYS_PER_100_YEARS as int);
        lemma_mod_division_less_than_divisor(d as int, DAYS_PER_100_YEARS as int);
        lemma_div_pos_is_pos(d as int, DAYS_PER_100_YEARS as int);
        assert(q100 == d as int / (DAYS_PER_100_YEARS as int));
        assert(ra == 36524 * (q100 as int) + (d as int % (DAYS_PER_100_YEARS as int)));
        assert(q100 <= 4);
    }
    let n100: u128 = q100 - q100 / 4;
    proof {
        lemma_fundamental_div_mod(q100 as int, 4);
        lemma_mod_division_less_than_divisor(q100 as int, 4);
        lemma_div_pos_is_pos(q100 as int, 4);
        assert(n100 == if q100 == 4 {
            3int
        } else {
            q100 as int
        });
        assert(q100 == 4 ==> ra == 146096);
        assert(36524 * (n100 as int) <= ra);
    }
    y = y + 100 * n100;
    d = d - DAYS_PER_100_YEARS * n100;
    let ghost rb: int = d as int;
    proof {
        assert(ra == 36524 * (n100 as int) + rb);
        assert(rb <= 36524);
        assert(rb == 36524 ==> n100 == 3);
        assert(y as int <= d0);
    }
    // Cut 4-year cycles.
    let n4: u128 = d / DAYS_PER_4_YEARS;
    proof {
        lemma_fundamental_div_mod(d as int, DAYS_PER_4_YEARS as int);
        lemma_mod_division_less_than_divisor(d as int, DAYS_PER_4_YEARS as int);
        lemma_div_pos_is_pos(d as int, DAYS_PER_4_YEARS as int);
        assert(n4 == d as int / (DAYS_PER_4_YEARS as int));
        assert(rb == 1461 * (n4 as int) + (d as int % (DAYS_PER_4_YEARS as int)));
        assert(n4 <= 24);
    }
    y = y + 4 * n4;
    d = d - DAYS_PER_4_YEARS * n4;
    let ghost rc: int = d as int;
    proof {
        assert(rb == 1461 * (n4 as int) + rc);
        assert(rc <= 1460);
        assert(y as int <= d0);
    }
    // Cut single years, pulling the fourth cut back for the leap day that
    // closes the 4-year cycle.
    let q1: u128 = d / 365;
    proof {
        lemma_fundamental_div_mod(d as int, 365);
        lemma_mod_division_less_than_divisor(d as int, 365);
        lemma_div_pos_is_pos(d as int, 365);
        assert(q1 == d as int / 365);
        assert(rc == 365 * (q1 as int) + (d as int % 365));
        assert(q1 <= 4);
    }
    let n1: u128 = q1 - q1 / 4;
    proof {
        lemma_fundamental_div_mod(q1 as int, 4);
        lemma_mod_division_less_than_divisor(q1 as int, 4);
        lemma_div_pos_is_pos(q1 as int, 4);
        assert(n1 == if q1 == 4 {
            3int
        } else {
            q1 as int
        });
        assert(q1 == 4 ==> rc == 1460);
        assert(365 * (n1 as int) <= rc);
    }
    y = y + n1;
    d = d - 365 * n1;
    let ghost doy: int = d as int;
    proof {
        assert(rc == 365 * (n1 as int) + doy);
        assert(doy <= 365);
        assert(doy == 365 ==> (n1 == 3 && rc == 1460));
        assert(y as int <= d0);
    }
    let year: u128 = y + 1;
    proof {
        assert(y == 400 * (n400 as int) + 100 * (n100 as int) + 4 * (n4 as int) + (n1 as int));
        lemma_days_to_year_cycles(n400 as int, n100 as int, n4 as int, n1 as int);
        assert(days_to_year(year as int) + doy == d0);
        if doy == 365 {
            if n4 == 24 {
                assert(rb == 36524);
            }
            lemma_cycle_end_leap(n400 as int, n100 as int, n4 as int);
            assert(is_leap_year(year as int));
        }
    }
    let leap: bool = is_leap(year);
    let mut doy_adj: u128 = d;
    if leap {
        if d > 59 {
            doy_adj = d - 1;
        } else if d == 59 {
            // February 29: the cumulative table only knows non-leap years.
            let t = clock(local);
            let c = CivilTime {
                year,
                month: 2,
                day: 29,
                hour: t.0 as u8,
                minute: t.1 as u8,
                second: t.2 as u8,
                millisecond: t.3 as u16,
            };
            proof {
                assert(day_of_year(c) == 59);
                assert(valid_civil(c));
                assert(civil_millis(c) == local);
            }
            return c;
        }
    }
    proof {
        assert(doy_adj <= 364);
    }
    // Find the month in the table: day/31 is the right 0-based index or one
    // short of it.
    let mut mi: usize = (doy_adj / 31) as usize;
    proof {
        lemma_fundamental_div_mod(doy_adj as int, 31);
        lemma_mod_division_less_than_divisor(doy_adj as int, 31);
        lemma_div_pos_is_pos(doy_adj as int, 31);
        assert(mi == doy_adj as int / 31);
        assert(doy_adj as int == 31 * (mi as int) + (doy_adj as int % 31));
        assert(mi <= 11);
        assert(days_before_month(mi as int + 1) <= 31 * (mi as int));
    }
    let end: u128 = days_before_tab(mi + 1);
    let begin: u128;
    if doy_adj >= end {
        proof {
            assert(mi <= 10);
        }
        mi = mi + 1;
        begin = end;
        proof {
            assert(doy_adj < days_before_month(mi as int + 2));
        }
    } else {
        begin = days_before_tab(mi);
    }
    proof {
        assert(days_before_month(mi as int + 1) <= doy_adj < days_before_month(mi as int + 2));
    }
    let month: u8 = (mi + 1) as u8;
    let day_count: u128 = doy_adj - begin + 1;
    let day: u8 = day_count as u8;
    let t = clock(local);
    let c = CivilTime {
        year,
        month,
        day,
        hour: t.0 as u8,
        minute: t.1 as u8,
        second: t.2 as u8,
        millisecond: t.3 as u16,
    };
    proof {
        assert(1 <= c.month <= 12);
        assert(c.day <= days_in_month(c.year as int, c.month as int));
        if leap && doy > 59 {
            assert(doy_adj == doy - 1);
            assert(59 <= doy_adj);
            assert(c.month > 2);
            assert(day_of_year(c) == doy);
        } else {
            assert(doy_adj == doy);
            if leap {
                assert(doy < 59);
                assert(c.month <= 2);
            }
            assert(day_of_year(c) == doy);
        }
        assert(valid_civil(c));
        assert(civil_millis(c) == local);
    }
    c
}

} // verus!
