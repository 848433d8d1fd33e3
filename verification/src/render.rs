//! Rendering of civil instants into the fixed `YYYY-MM-DD HH:MM:SS.mmm`
//! pattern.
//!
//! The year keeps its natural width; month, day, hour, minute and second are
//! two digits, zero-padded on the left.  The millisecond field is padded on
//! the *right* with zeros, so a value of 7 renders as `700`: almost certainly
//! a mistake once, but consumers may depend on it by now, so it is stated,
//! proved and tested exactly as it behaves rather than silently corrected.

use vstd::prelude::*;
use vstd::arithmetic::div_mod::{
    lemma_fundamental_div_mod, lemma_div_pos_is_pos, lemma_mod_division_less_than_divisor,
    lemma_div_decreases,
};
use crate::civil::{
    CivilTime, valid_civil, civil_millis, convert, MAX_EPOCH_MILLIS, ERA_OFFSET_MILLIS,
    ZONE_OFFSET_MILLIS,
};

verus! {

/// The character of a single decimal digit.
pub open spec fn digit_char(d: int) -> char {
    if d == 0 {
        '0'
    } else if d == 1 {
        '1'
    } else if d == 2 {
        '2'
    } else if d == 3 {
        '3'
    } else if d == 4 {
        '4'
    } else if d == 5 {
        '5'
    } else if d == 6 {
        '6'
    } else if d == 7 {
        '7'
    } else if d == 8 {
        '8'
    } else {
        '9'
    }
}

/// The decimal digits of `n`, most significant first, without leading zeros
/// (a single `0` for zero).
pub open spec fn dec_digits(n: int) -> Seq<char>
    recommends
        n >= 0,
    decreases n,
    when n >= 0
    via dec_digits_dec
{
    if n < 10 {
        seq![digit_char(n)]
    } else {
        dec_digits(n / 10).push(digit_char(n % 10))
    }
}

#[via_fn]
proof fn dec_digits_dec(n: int) {
    if 10 <= n {
        lemma_div_decreases(n, 10);
        lemma_div_pos_is_pos(n, 10);
    }
}

/// A number rendered as exactly two digits, zero-padded on the left.
pub open spec fn two_digits(n: int) -> Seq<char> {
    seq![digit_char(n / 10), digit_char(n % 10)]
}

/// The defective millisecond field: the decimal digits padded on the right
/// with zeros to three characters, so 7 becomes `700` and 50 becomes `500`.
pub open spec fn milli_digits(n: int) -> Seq<char> {
    if n < 10 {
        dec_digits(n) + seq!['0', '0']
    } else if n < 100 {
        dec_digits(n) + seq!['0']
    } else {
        dec_digits(n)
    }
}

/// The full timestamp pattern `YYYY-MM-DD HH:MM:SS.mmm`.
pub open spec fn timestamp_digits(c: CivilTime) -> Seq<char> {
    dec_digits(c.year as int) + seq!['-'] + two_digits(c.month as int) + seq!['-'] + two_digits(
        c.day as int,
    ) + seq![' '] + two_digits(c.hour as int) + seq![':'] + two_digits(c.minute as int) + seq![':']
        + two_digits(c.second as int) + seq!['.'] + milli_digits(c.millisecond as int)
}

/// One decimal digit as a borrowed string.
fn digit_str(d: u128) -> (r: &'static str)
    requires
        d <= 9,
    ensures
        r@ =~= seq![digit_char(d as int)],
{
    proof {
        reveal_strlit("0");
        reveal_strlit("1");
        reveal_strlit("2");
        reveal_strlit("3");
        reveal_strlit("4");
        reveal_strlit("5");
        reveal_strlit("6");
        reveal_strlit("7");
        reveal_strlit("8");
        reveal_strlit("9");
    }
    match d {
        0 => "0",
        1 => "1",
        2 => "2",
        3 => "3",
        4 => "4",
        5 => "5",
        6 => "6",
        7 => "7",
        8 => "8",
        _ => "9",
    }
}

/// `n` in decimal, natural width.
pub fn decimal_str(n: u128) -> (s: String)
    ensures
        s@ == dec_digits(n as int),
    decreases n,
{
    if n < 10 {
        let s = String::from_str(digit_str(n));
        proof {
            assert(s@ =~= dec_digits(n as int));
        }
        s
    } else {
        proof {
            lemma_div_decreases(n as int, 10);
            lemma_div_pos_is_pos(n as int, 10);
            lemma_fundamental_div_mod(n as int, 10);
            lemma_mod_division_less_than_divisor(n as int, 10);
        }
        let mut s = decimal_str(n / 10);
        s.append(digit_str(n % 10));
        proof {
            assert(s@ =~= dec_digits(n as int));
        }
        s
    }
}

/// `n` as exactly two digits, zero-padded on the left.
fn two_digit_str(n: u128) -> (s: String)
    requires
        n <= 99,
    ensures
        s@ == two_digits(n as int),
{
    proof {
        lemma_fundamental_div_mod(n as int, 10);
        lemma_mod_division_less_than_divisor(n as int, 10);
        lemma_div_pos_is_pos(n as int, 10);
    }
    let mut s = String::from_str(digit_str(n / 10));
    s.append(digit_str(n % 10));
    proof {
        assert(s@ =~= two_digits(n as int));
    }
    s
}

/// The millisecond field, right-padded with zeros to three characters.
fn milli_str(n: u128) -> (s: String)
    requires
        n <= 999,
    ensures
        s@ == milli_digits(n as int),
{
    let mut s = decimal_str(n);
    proof {
        reveal_strlit("00");
        reveal_strlit("0");
    }
    if n < 10 {
        s.append("00");
    } else if n < 100 {
        s.append("0");
    }
    proof {
        assert(s@ =~= milli_digits(n as int));
    }
    s
}

/// Renders a civil instant in the fixed timestamp pattern.
pub fn format_civil(c: &CivilTime) -> (s: String)
    requires
        valid_civil(*c),
    ensures
        s@ == timestamp_digits(*c),
{
    proof {
        reveal_strlit("-");
        reveal_strlit(" ");
        reveal_strlit(":");
        reveal_strlit(".");
    }
    let mut s = decimal_str(c.year);
    s.append("-");
    let month = two_digit_str(c.month as u128);
    s.append(month.as_str());
    s.append("-");
    let day = two_digit_str(c.day as u128);
    s.append(day.as_str());
    s.append(" ");
    let hour = two_digit_str(c.hour as u128);
    s.append(hour.as_str());
    s.append(":");
    let minute = two_digit_str(c.minute as u128);
    s.append(minute.as_str());
    s.append(":");
    let second = two_digit_str(c.second as u128);
    s.append(second.as_str());
    s.append(".");
    let milli = milli_str(c.millisecond as u128);
    s.append(milli.as_str());
    proof {
        assert(s@ =~= timestamp_digits(*c));
    }
    s
}

/// Formats a count of milliseconds since the Unix epoch as the timestamp of
/// the civil instant it denotes under the fixed UTC+8 offset.
pub fn milli_fmt(milli: u128) -> (s: String)
    requires
        milli <= MAX_EPOCH_MILLIS,
    ensures
        exists|c: CivilTime|
            valid_civil(c) && civil_millis(c) == milli + ERA_OFFSET_MILLIS + ZONE_OFFSET_MILLIS
                && s@ == timestamp_digits(c),
{
    let c = convert(milli);
    let s = format_civil(&c);
    proof {
        assert(valid_civil(c) && civil_millis(c) == milli + ERA_OFFSET_MILLIS + ZONE_OFFSET_MILLIS
            && s@ == timestamp_digits(c));
    }
    s
}

} // verus!
