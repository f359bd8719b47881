//! Parsing of the formatted start-time string (`YYYY-MM-DD HH:MM:SS`) back
//! into civil seconds, so the exit log can derive a process's uptime from
//! the same string the display shows. A string that does not parse yields no
//! value — the caller records the exit with an uptime of zero.
use vstd::prelude::*;

verus! {

/// Gregorian leap-year rule.
pub open spec fn is_leap(y: int) -> bool {
    y % 4 == 0 && (y % 100 != 0 || y % 400 == 0)
}

/// Days of the month in the given year; zero for an invalid month number.
pub open spec fn days_in_month(y: int, m: int) -> int {
    if m == 1 { 31 } else if m == 2 { if is_leap(y) { 29 } else { 28 } }
    else if m == 3 { 31 } else if m == 4 { 30 } else if m == 5 { 31 }
    else if m == 6 { 30 } else if m == 7 { 31 } else if m == 8 { 31 }
    else if m == 9 { 30 } else if m == 10 { 31 } else if m == 11 { 30 }
    else if m == 12 { 31 } else { 0 }
}

/// Days in all years from 1970 up to (excluding) `y`.
pub open spec fn days_to_year(y: int) -> int
    decreases y - 1970,
{
    if y <= 1970 {
        0
    } else {
        days_to_year(y - 1) + if is_leap(y - 1) { 366int } else { 365int }
    }
}

/// Days in all months of year `y` before month `m`.
pub open spec fn days_to_month(y: int, m: int) -> int
    decreases m,
{
    if m <= 1 {
        0
    } else {
        days_to_month(y, m - 1) + days_in_month(y, m - 1)
    }
}

/// Civil seconds since 1970-01-01 00:00:00 of a calendar instant.
pub open spec fn civil_secs(y: int, m: int, d: int, h: int, mi: int, s: int) -> int {
    (days_to_year(y) + days_to_month(y, m) + (d - 1)) * 86400 + h * 3600 + mi * 60 + s
}

/// The instants the parser accepts: the epoch year or later, a real calendar
/// day, and a time of day on the 24-hour clock.
pub open spec fn valid_civil(y: int, m: int, d: int, h: int, mi: int, s: int) -> bool {
    &&& 1970 <= y <= 9999
    &&& 1 <= m <= 12
    &&& 1 <= d <= days_in_month(y, m)
    &&& 0 <= h <= 23
    &&& 0 <= mi <= 59
    &&& 0 <= s <= 59
}

/// The numeric value of a decimal digit character; ten for anything else.
pub open spec fn spec_digit_val(c: char) -> int {
    if c == '0' { 0 } else if c == '1' { 1 } else if c == '2' { 2 }
    else if c == '3' { 3 } else if c == '4' { 4 } else if c == '5' { 5 }
    else if c == '6' { 6 } else if c == '7' { 7 } else if c == '8' { 8 }
    else if c == '9' { 9 } else { 10 }
}

/// Two decimal digits read at position `i`.
pub open spec fn spec_num2(t: Seq<char>, i: int) -> int {
    spec_digit_val(t[i]) * 10 + spec_digit_val(t[i + 1])
}

/// Four decimal digits read at position `i`.
pub open spec fn spec_num4(t: Seq<char>, i: int) -> int {
    spec_num2(t, i) * 100 + spec_num2(t, i + 2)
}

/// All characters of `t` in `[i, j)` are decimal digits.
pub open spec fn all_digits(t: Seq<char>, i: int, j: int) -> bool {
    forall|k: int| i <= k < j ==> spec_digit_val(t[k]) < 10
}

/// The shape `YYYY-MM-DD HH:MM:SS`.
pub open spec fn well_formed_stamp(t: Seq<char>) -> bool {
    &&& t.len() == 19
    &&& t[4] == '-' && t[7] == '-' && t[10] == ' ' && t[13] == ':' && t[16] == ':'
    &&& all_digits(t, 0, 4) && all_digits(t, 5, 7) && all_digits(t, 8, 10)
    &&& all_digits(t, 11, 13) && all_digits(t, 14, 16) && all_digits(t, 17, 19)
}

/// What parsing a start-time string yields: civil seconds for a well-formed
/// stamp naming a valid instant, nothing otherwise.
pub open spec fn spec_parse_datetime(t: Seq<char>) -> Option<u64> {
    if well_formed_stamp(t) {
        let y = spec_num4(t, 0);
        let m = spec_num2(t, 5);
        let d = spec_num2(t, 8);
        let h = spec_num2(t, 11);
        let mi = spec_num2(t, 14);
        let s = spec_num2(t, 17);
        if valid_civil(y, m, d, h, mi, s) {
            Some(civil_secs(y, m, d, h, mi, s) as u64)
        } else {
            None
        }
    } else {
        None
    }
}

/// Uptime derived from a start-time string and the exit instant: their
/// difference clamped at zero, or zero when the string does not parse.
pub open spec fn spec_uptime(start: Seq<char>, exit_secs: u64) -> u64 {
    match spec_parse_datetime(start) {
        Some(st) => if exit_secs >= st { (exit_secs - st) as u64 } else { 0u64 },
        None => 0u64,
    }
}

/// Exec counterpart of `spec_digit_val`.
fn digit_val(c: char) -> (r: u64)
    ensures
        r == spec_digit_val(c),
{
    if c == '0' { 0 } else if c == '1' { 1 } else if c == '2' { 2 }
    else if c == '3' { 3 } else if c == '4' { 4 } else if c == '5' { 5 }
    else if c == '6' { 6 } else if c == '7' { 7 } else if c == '8' { 8 }
    else if c == '9' { 9 } else { 10 }
}

/// Exec counterpart of `is_leap` for the supported year range.
fn leap_year(y: u64) -> (r: bool)
    ensures
        r == is_leap(y as int),
{
    y % 4 == 0 && (y % 100 != 0 || y % 400 == 0)
}

/// Exec counterpart of `days_in_month` for the supported range.
fn month_days(y: u64, m: u64) -> (r: u64)
    requires
        1 <= m <= 12,
    ensures
        r == days_in_month(y as int, m as int),
{
    if m == 1 { 31 } else if m == 2 { if leap_year(y) { 29 } else { 28 } }
    else if m == 3 { 31 } else if m == 4 { 30 } else if m == 5 { 31 }
    else if m == 6 { 30 } else if m == 7 { 31 } else if m == 8 { 31 }
    else if m == 9 { 30 } else if m == 10 { 31 } else if m == 11 { 30 }
    else { 31 }
}

/// Days in all years from 1970 up to (excluding) `y`, with a linear bound
/// that keeps the later second arithmetic inside `u64`.
fn days_before_year(y: u64) -> (r: u64)
    requires
        1970 <= y <= 9999,
    ensures
        r == days_to_year(y as int),
        r <= (y - 1970) * 366,
{
    let mut acc: u64 = 0;
    let mut yr: u64 = 1970;
    while yr < y
        invariant
            1970 <= yr <= y <= 9999,
            acc == days_to_year(yr as int),
            acc <= (yr - 1970) * 366,
        decreases y - yr,
    {
        if leap_year(yr) {
            acc = acc + 366;
        } else {
            acc = acc + 365;
        }
        yr = yr + 1;
    }
    acc
}

/// Days in all months of year `y` before month `m`.
fn days_before_month(y: u64, m: u64) -> (r: u64)
    requires
        1 <= m <= 12,
    ensures
        r == days_to_month(y as int, m as int),
        r <= 366,
{
    let mut acc: u64 = 0;
    let mut mo: u64 = 1;
    while mo < m
        invariant
            1 <= mo <= m <= 12,
            acc == days_to_month(y as int, mo as int),
            acc <= 31 * (mo - 1),
        decreases m - mo,
    {
        acc = acc + month_days(y, mo);
        mo = mo + 1;
    }
    acc
}

/// Reads two digits at position `i`; ten or more marks a non-digit.
fn num2(t: &str, i: usize) -> (r: u64)
    requires
        t@.len() == 19,
        i + 2 <= 19,
    ensures
        (spec_digit_val(t@[i as int]) < 10 && spec_digit_val(t@[i as int + 1]) < 10) <==> r < 100,
        r < 100 ==> r == spec_num2(t@, i as int),
{
    let a = digit_val(t.get_char(i));
    let b = digit_val(t.get_char(i + 1));
    if a < 10 && b < 10 {
        a * 10 + b
    } else {
        100
    }
}

/// Parses a `YYYY-MM-DD HH:MM:SS` stamp into civil seconds since the epoch
/// year; yields nothing on any malformed or out-of-range input.
pub fn parse_datetime(t: &str) -> (r: Option<u64>)
    ensures
        r == spec_parse_datetime(t@),
{
    let len = t.unicode_len();
    if len != 19 {
        return None;
    }
    if !(t.get_char(4) == '-' && t.get_char(7) == '-' && t.get_char(10) == ' ' && t.get_char(13)
        == ':' && t.get_char(16) == ':') {
        return None;
    }
    let y2a = num2(t, 0);
    let y2b = num2(t, 2);
    let m = num2(t, 5);
    let d = num2(t, 8);
    let h = num2(t, 11);
    let mi = num2(t, 14);
    let s = num2(t, 17);
    if y2a >= 100 || y2b >= 100 || m >= 100 || d >= 100 || h >= 100 || mi >= 100 || s >= 100 {
        return None;
    }
    let y = y2a * 100 + y2b;
    proof {
        assert(all_digits(t@, 0, 4)) by {
            assert forall|k: int| 0 <= k < 4 implies spec_digit_val(t@[k]) < 10 by {
                if k == 0 || k == 1 {
                    assert(spec_digit_val(t@[0]) < 10 && spec_digit_val(t@[1]) < 10);
                } else {
                    assert(spec_digit_val(t@[2]) < 10 && spec_digit_val(t@[3]) < 10);
                }
            }
        }
        assert(well_formed_stamp(t@));
        assert(y == spec_num4(t@, 0));
    }
    if !(1970 <= y && 1 <= m && m <= 12 && h <= 23 && mi <= 59 && s <= 59) {
        return None;
    }
    if d < 1 || d > month_days(y, m) {
        return None;
    }
    let days = days_before_year(y) + days_before_month(y, m) + (d - 1);
    assert(days <= 8029 * 366 + 366 + 30);
    let secs = days * 86400 + h * 3600 + mi * 60 + s;
    Some(secs)
}

/// Uptime of an exited process: the exit instant minus the parsed start
/// instant, clamped at zero; zero when the start string does not parse.
pub fn uptime_seconds(start: &str, exit_secs: u64) -> (r: u64)
    ensures
        r == spec_uptime(start@, exit_secs),
{
    match parse_datetime(start) {
        Some(st) => {
            if exit_secs >= st {
                exit_secs - st
            } else {
                0
            }
        },
        None => 0,
    }
}

} // verus!
