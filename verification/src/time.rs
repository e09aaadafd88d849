//! Civil-calendar arithmetic for publish timestamps: conversion between
//! Gregorian dates and unix seconds, parsing of the date form feeds carry,
//! and the timestamp formatting used by the pattern language. Years 1
//! through 9999 are covered.

use vstd::prelude::*;

use crate::text::{chars_match_at, find_from, find_in_chars, lemma_find_from_props, matches_at};

verus! {

/// Whether `y` is a Gregorian leap year.
pub open spec fn is_leap_year(y: int) -> bool {
    (y % 4 == 0 && y % 100 != 0) || y % 400 == 0
}

/// Days in year `y`.
pub open spec fn days_in_year(y: int) -> int {
    if is_leap_year(y) {
        366
    } else {
        365
    }
}

/// Days in month `m` (1-based) of year `y`.
pub open spec fn days_in_month(y: int, m: int) -> int {
    if m == 2 {
        if is_leap_year(y) {
            29
        } else {
            28
        }
    } else if m == 4 || m == 6 || m == 9 || m == 11 {
        30
    } else {
        31
    }
}

/// Days from 1970-01-01 to January 1 of year `y` (negative before 1970).
pub open spec fn year_start_day(y: int) -> int
    decreases
            if y >= 1970 {
                y - 1970
            } else {
                1970 - y
            },
{
    if y == 1970 {
        0
    } else if y > 1970 {
        year_start_day(y - 1) + days_in_year(y - 1)
    } else {
        year_start_day(y + 1) - days_in_year(y)
    }
}

/// Days from January 1 to the first of month `m` within year `y`.
pub open spec fn month_start_day(y: int, m: int) -> int
    decreases m,
{
    if m <= 1 {
        0
    } else {
        month_start_day(y, m - 1) + days_in_month(y, m - 1)
    }
}

/// Days from 1970-01-01 to the civil date `y-m-d`.
pub open spec fn days_from_civil(y: int, m: int, d: int) -> int {
    year_start_day(y) + month_start_day(y, m) + d - 1
}

/// Unix seconds of the civil instant `y-m-d h:mi:s`.
pub open spec fn civil_seconds(y: int, m: int, d: int, h: int, mi: int, s: int) -> int {
    days_from_civil(y, m, d) * 86400 + h * 3600 + mi * 60 + s
}

/// A year's start day grows about 365 days per year in both directions.
pub proof fn lemma_year_start_day_bounds(y: int)
    requires
        1 <= y <= 10001,
    ensures
        y >= 1970 ==> 365 * (y - 1970) <= year_start_day(y) <= 366 * (y - 1970),
        y < 1970 ==> -366 * (1970 - y) <= year_start_day(y) <= -365 * (1970 - y),
    decreases
            if y >= 1970 {
                y - 1970
            } else {
                1970 - y
            },
{
    if y > 1970 {
        lemma_year_start_day_bounds(y - 1);
    } else if y < 1970 {
        lemma_year_start_day_bounds(y + 1);
    }
}

/// Whether `y` is a leap year, decided by machine arithmetic.
pub fn is_leap_year_x(y: i64) -> (r: bool)
    requires
        y >= 0,
    ensures
        r == is_leap_year(y as int),
{
    (y % 4 == 0 && y % 100 != 0) || y % 400 == 0
}

/// Days in year `y`.
pub fn days_in_year_x(y: i64) -> (r: i64)
    requires
        y >= 0,
    ensures
        r == days_in_year(y as int),
{
    if is_leap_year_x(y) {
        366
    } else {
        365
    }
}

/// Days in month `m` of year `y`.
pub fn days_in_month_x(y: i64, m: i64) -> (r: i64)
    requires
        y >= 0,
    ensures
        r == days_in_month(y as int, m as int),
{
    if m == 2 {
        if is_leap_year_x(y) {
            29
        } else {
            28
        }
    } else if m == 4 || m == 6 || m == 9 || m == 11 {
        30
    } else {
        31
    }
}

/// Days from 1970-01-01 to January 1 of year `y`.
pub fn year_start_day_x(y: i64) -> (r: i64)
    requires
        1 <= y <= 10001,
    ensures
        r == year_start_day(y as int),
{
    let mut cur: i64 = 1970;
    let mut acc: i64 = 0;
    if y >= 1970 {
        while cur < y
            invariant
                1970 <= cur <= y <= 10001,
                acc == year_start_day(cur as int),
            decreases y - cur,
        {
            proof {
                lemma_year_start_day_bounds(cur as int);
                lemma_year_start_day_bounds(cur + 1);
            }
            acc = acc + days_in_year_x(cur);
            cur = cur + 1;
        }
    } else {
        while cur > y
            invariant
                1 <= y <= cur <= 1970,
                acc == year_start_day(cur as int),
            decreases cur - y,
        {
            proof {
                lemma_year_start_day_bounds(cur as int);
                lemma_year_start_day_bounds(cur - 1);
            }
            cur = cur - 1;
            acc = acc - days_in_year_x(cur);
        }
    }
    acc
}

/// The start offset of a month never passes a year's length.
pub proof fn lemma_month_start_day_bounds(y: int, m: int)
    requires
        1 <= m <= 13,
    ensures
        0 <= month_start_day(y, m) <= 366,
        m <= 12 ==> month_start_day(y, m) + days_in_month(y, m) <= days_in_year(y),
    decreases m,
{
    if m > 1 {
        lemma_month_start_day_bounds(y, m - 1);
    }
    if m <= 12 {
        lemma_month_start_rest(y, m);
    }
}

/// From any month on, the remaining months fill exactly the rest of the
/// year.
proof fn lemma_month_start_rest(y: int, m: int)
    requires
        1 <= m <= 12,
    ensures
        month_start_day(y, m) + days_in_month(y, m) <= days_in_year(y),
        month_start_day(y, 13) == days_in_year(y),
    decreases 13 - m,
{
    reveal_with_fuel(month_start_day, 14);
    assert(month_start_day(y, 13) == days_in_year(y));
}

/// The year holding a day offset `d` from January 1 of year `y`, with the
/// remaining day-of-year.
pub open spec fn year_scan(y: int, d: int) -> (int, int)
    decreases
            (if d < 0 {
                1int
            } else {
                0int
            }),
            (if d < 0 {
                -d
            } else {
                d
            }),
{
    if d < 0 {
        year_scan(y - 1, d + days_in_year(y - 1))
    } else if d >= days_in_year(y) {
        year_scan(y + 1, d - days_in_year(y))
    } else {
        (y, d)
    }
}

/// The month holding a day offset `d` from the first of month `m` of year
/// `y`, with the remaining day-of-month.
pub open spec fn month_scan(y: int, m: int, d: int) -> (int, int)
    decreases 12 - m,
{
    if m >= 12 || d < days_in_month(y, m) {
        (m, d)
    } else {
        month_scan(y, m + 1, d - days_in_month(y, m))
    }
}

/// The civil instant of a unix timestamp: year, month, day, hour, minute,
/// second.
pub open spec fn civil_from_ts(ts: int) -> (int, int, int, int, int, int) {
    let day = ts / 86400;
    let sod = ts % 86400;
    let (y, doy) = year_scan(1970, day);
    let (m, dm) = month_scan(y, 1, doy);
    (y, m, dm + 1, sod / 3600, (sod % 3600) / 60, sod % 60)
}

/// Whether a timestamp falls within the covered civil years.
pub open spec fn ts_in_civil_range(ts: int) -> bool {
    year_start_day(1) <= ts / 86400 < year_start_day(10000)
}

/// Splits a timestamp into its civil components, as `civil_from_ts`
/// describes; the year lands in 1 through 9999, and every component is in
/// its calendar range.
pub fn civil_from_ts_x(ts: i64) -> (r: (i64, i64, i64, i64, i64, i64))
    requires
        ts_in_civil_range(ts as int),
    ensures
        (r.0 as int, r.1 as int, r.2 as int, r.3 as int, r.4 as int, r.5 as int) == civil_from_ts(
            ts as int,
        ),
        1 <= r.0 <= 9999,
        1 <= r.1 <= 12,
        1 <= r.2 <= days_in_month(r.0 as int, r.1 as int),
        0 <= r.3 <= 23,
        0 <= r.4 <= 59,
        0 <= r.5 <= 59,
{
    proof {
        lemma_year_start_day_bounds(1);
        lemma_year_start_day_bounds(10000);
        vstd::arithmetic::div_mod::lemma_fundamental_div_mod(ts as int, 86400);
        vstd::arithmetic::div_mod::lemma_mod_bound(ts as int, 86400);
    }
    let day: i64 = match ts.checked_div_euclid(86400) {
        Some(q) => q,
        None => unreached(),
    };
    let sod: i64 = ts - day * 86400;
    let ghost gday = day as int;
    let mut y: i64 = 1970;
    let mut d: i64 = day;
    while d < 0
        invariant
            1 <= y <= 1970,
            year_start_day(y as int) + d == gday,
            gday >= year_start_day(1),
            year_scan(1970, gday) == year_scan(y as int, d as int),
        decreases
                (if d < 0 {
                    0 - d
                } else {
                    0int
                }),
    {
        proof {
            if y == 1 {
                assert(gday < year_start_day(1));
            }
            lemma_year_start_day_bounds(y - 1);
        }
        y = y - 1;
        d = d + days_in_year_x(y);
    }
    while d >= days_in_year_x(y)
        invariant
            1 <= y <= 9999,
            d >= 0,
            year_start_day(y as int) + d == gday,
            gday < year_start_day(10000),
            year_scan(1970, gday) == year_scan(y as int, d as int),
        decreases d,
    {
        proof {
            if y == 9999 {
                lemma_year_start_day_bounds(9999);
                lemma_year_start_day_bounds(10000);
                assert(year_start_day(10000int) == year_start_day(9999int) + days_in_year(9999int));
                assert(gday >= year_start_day(10000));
            }
        }
        d = d - days_in_year_x(y);
        y = y + 1;
    }
    let ghost gdoy = d as int;
    proof {
        assert(year_scan(y as int, d as int) == (y as int, d as int));
    }
    let mut m: i64 = 1;
    while m < 12 && d >= days_in_month_x(y, m)
        invariant
            1 <= m <= 12,
            1 <= y <= 9999,
            0 <= d,
            month_start_day(y as int, m as int) + d == gdoy,
            gdoy < days_in_year(y as int),
            month_scan(y as int, 1, gdoy) == month_scan(y as int, m as int, d as int),
        decreases 12 - m,
    {
        d = d - days_in_month_x(y, m);
        m = m + 1;
    }
    proof {
        if m == 12 {
            lemma_month_start_rest(y as int, 12);
        }
        assert(month_scan(y as int, m as int, d as int) == (m as int, d as int));
    }
    let hour = ((sod as u64) / 3600) as i64;
    let minute = (((sod as u64) % 3600) / 60) as i64;
    let second = ((sod as u64) % 60) as i64;
    proof {
        assert(sod as int == (ts as int) % 86400);
        assert(hour as int == ((ts as int) % 86400) / 3600);
        assert(minute as int == (((ts as int) % 86400) % 3600) / 60);
        assert(second as int == ((ts as int) % 86400) % 60);
    }
    (y, m, d + 1, hour, minute, second)
}

/// Days from January 1 to the first of month `m` of year `y`.
pub fn month_start_day_x(y: i64, m: i64) -> (r: i64)
    requires
        y >= 0,
        1 <= m <= 13,
    ensures
        r == month_start_day(y as int, m as int),
{
    let mut cur: i64 = 1;
    let mut acc: i64 = 0;
    while cur < m
        invariant
            y >= 0,
            1 <= cur <= m <= 13,
            acc == month_start_day(y as int, cur as int),
        decreases m - cur,
    {
        proof {
            lemma_month_start_day_bounds(y as int, cur as int);
            lemma_month_start_day_bounds(y as int, cur + 1);
        }
        acc = acc + days_in_month_x(y, cur);
        cur = cur + 1;
    }
    acc
}

/// The value of one decimal digit character; `-1` for any other character.
pub open spec fn digit_of(c: char) -> int {
    if c == '0' {
        0
    } else if c == '1' {
        1
    } else if c == '2' {
        2
    } else if c == '3' {
        3
    } else if c == '4' {
        4
    } else if c == '5' {
        5
    } else if c == '6' {
        6
    } else if c == '7' {
        7
    } else if c == '8' {
        8
    } else if c == '9' {
        9
    } else {
        -1
    }
}

/// The value of two digit characters at `i`; `-1` when either is no digit.
pub open spec fn num2_at(s: Seq<char>, i: int) -> int {
    if digit_of(s[i]) < 0 || digit_of(s[i + 1]) < 0 {
        -1
    } else {
        digit_of(s[i]) * 10 + digit_of(s[i + 1])
    }
}

/// The value of four digit characters at `i`; `-1` when any is no digit.
pub open spec fn num4_at(s: Seq<char>, i: int) -> int {
    if num2_at(s, i) < 0 || num2_at(s, i + 2) < 0 {
        -1
    } else {
        num2_at(s, i) * 100 + num2_at(s, i + 2)
    }
}

/// Reads one digit character.
fn digit_of_x(c: char) -> (r: i64)
    ensures
        r == digit_of(c),
{
    if c == '0' {
        0
    } else if c == '1' {
        1
    } else if c == '2' {
        2
    } else if c == '3' {
        3
    } else if c == '4' {
        4
    } else if c == '5' {
        5
    } else if c == '6' {
        6
    } else if c == '7' {
        7
    } else if c == '8' {
        8
    } else if c == '9' {
        9
    } else {
        -1
    }
}

/// Reads a two-digit number at `i`.
fn read2(cs: &Vec<char>, i: usize) -> (r: i64)
    requires
        i + 2 <= cs@.len(),
    ensures
        r == num2_at(cs@, i as int),
{
    let n = cs.len();
    let a = digit_of_x(cs[i]);
    let b = digit_of_x(cs[i + 1]);
    if a < 0 || b < 0 {
        -1
    } else {
        a * 10 + b
    }
}

/// Reads a four-digit number at `i`.
fn read4(cs: &Vec<char>, i: usize) -> (r: i64)
    requires
        i + 4 <= cs@.len(),
    ensures
        r == num4_at(cs@, i as int),
{
    let n = cs.len();
    let hi = read2(cs, i);
    let lo = read2(cs, i + 2);
    if hi < 0 || lo < 0 {
        -1
    } else {
        hi * 100 + lo
    }
}

/// The month number named by the three characters at `i`; `-1` for any
/// other text.
pub open spec fn month_at(s: Seq<char>, i: int) -> int {
    if matches_at(s, i, "Jan"@) {
        1
    } else if matches_at(s, i, "Feb"@) {
        2
    } else if matches_at(s, i, "Mar"@) {
        3
    } else if matches_at(s, i, "Apr"@) {
        4
    } else if matches_at(s, i, "May"@) {
        5
    } else if matches_at(s, i, "Jun"@) {
        6
    } else if matches_at(s, i, "Jul"@) {
        7
    } else if matches_at(s, i, "Aug"@) {
        8
    } else if matches_at(s, i, "Sep"@) {
        9
    } else if matches_at(s, i, "Oct"@) {
        10
    } else if matches_at(s, i, "Nov"@) {
        11
    } else if matches_at(s, i, "Dec"@) {
        12
    } else {
        -1
    }
}

/// Reads a month name at `i`.
fn read_month(cs: &Vec<char>, i: usize) -> (r: i64)
    requires
        i <= cs@.len(),
    ensures
        r == month_at(cs@, i as int),
{
    if chars_match_at(cs, i, "Jan") {
        1
    } else if chars_match_at(cs, i, "Feb") {
        2
    } else if chars_match_at(cs, i, "Mar") {
        3
    } else if chars_match_at(cs, i, "Apr") {
        4
    } else if chars_match_at(cs, i, "May") {
        5
    } else if chars_match_at(cs, i, "Jun") {
        6
    } else if chars_match_at(cs, i, "Jul") {
        7
    } else if chars_match_at(cs, i, "Aug") {
        8
    } else if chars_match_at(cs, i, "Sep") {
        9
    } else if chars_match_at(cs, i, "Oct") {
        10
    } else if chars_match_at(cs, i, "Nov") {
        11
    } else if chars_match_at(cs, i, "Dec") {
        12
    } else {
        -1
    }
}

/// The zone offset, in seconds, named by the text from `z` to the end: a
/// universal-time name, or a signed four-digit hour/minute offset with
/// minutes under sixty. `None` for any other text.
pub open spec fn zone_offset_at(s: Seq<char>, z: int) -> Option<int> {
    if s.skip(z) == "GMT"@ || s.skip(z) == "UT"@ || s.skip(z) == "UTC"@ || s.skip(z) == "Z"@ {
        Some(0)
    } else if s.len() - z == 5 && (s[z] == '+' || s[z] == '-') && num2_at(s, z + 1) >= 0 && num2_at(
        s,
        z + 3,
    ) >= 0 && num2_at(s, z + 3) <= 59 {
        if s[z] == '+' {
            Some(num2_at(s, z + 1) * 3600 + num2_at(s, z + 3) * 60)
        } else {
            Some(-(num2_at(s, z + 1) * 3600 + num2_at(s, z + 3) * 60))
        }
    } else {
        None
    }
}

/// Reads the zone offset that closes the date text.
fn read_zone(cs: &Vec<char>, z: usize) -> (r: Option<i64>)
    requires
        z <= cs@.len(),
    ensures
        match r {
            Some(off) => zone_offset_at(cs@, z as int) == Some(off as int) && -360000 <= off
                <= 360000,
            None => zone_offset_at(cs@, z as int) is None,
        },
{
    let n = cs.len() - z;
    proof {
        reveal_strlit("GMT");
        reveal_strlit("UT");
        reveal_strlit("UTC");
        reveal_strlit("Z");
        assert(cs@.skip(z as int).len() == n);
    }
    if n == 3 && chars_match_at(cs, z, "GMT") {
        proof {
            assert(cs@.skip(z as int) =~= cs@.subrange(z as int, z + 3));
        }
        Some(0)
    } else if n == 2 && chars_match_at(cs, z, "UT") {
        proof {
            assert(cs@.skip(z as int) =~= cs@.subrange(z as int, z + 2));
        }
        Some(0)
    } else if n == 3 && chars_match_at(cs, z, "UTC") {
        proof {
            assert(cs@.skip(z as int) =~= cs@.subrange(z as int, z + 3));
        }
        Some(0)
    } else if n == 1 && chars_match_at(cs, z, "Z") {
        proof {
            assert(cs@.skip(z as int) =~= cs@.subrange(z as int, z + 1));
        }
        Some(0)
    } else {
        proof {
            lemma_zone_names_differ(cs@, z as int);
        }
        if n == 5 && (cs[z] == '+' || cs[z] == '-') {
            let hh = read2(cs, z + 1);
            let mm = read2(cs, z + 3);
            if hh >= 0 && mm >= 0 && mm <= 59 {
                let total = hh * 3600 + mm * 60;
                if cs[z] == '+' {
                    Some(total)
                } else {
                    Some(-total)
                }
            } else {
                None
            }
        } else {
            None
        }
    }
}

/// A universal-time zone name never coincides with text of another length,
/// so failing the name comparisons settles the name case of the zone spec.
proof fn lemma_zone_names_differ(s: Seq<char>, z: int)
    requires
        0 <= z <= s.len(),
    ensures
        s.skip(z) == "GMT"@ ==> matches_at(s, z, "GMT"@) && s.len() - z == "GMT"@.len(),
        s.skip(z) == "UT"@ ==> matches_at(s, z, "UT"@) && s.len() - z == "UT"@.len(),
        s.skip(z) == "UTC"@ ==> matches_at(s, z, "UTC"@) && s.len() - z == "UTC"@.len(),
        s.skip(z) == "Z"@ ==> matches_at(s, z, "Z"@) && s.len() - z == "Z"@.len(),
{
    reveal_strlit("GMT");
    reveal_strlit("UT");
    reveal_strlit("UTC");
    reveal_strlit("Z");
    if s.skip(z) == "GMT"@ {
        assert(s.subrange(z, z + 3) =~= s.skip(z));
    }
    if s.skip(z) == "UT"@ {
        assert(s.subrange(z, z + 2) =~= s.skip(z));
    }
    if s.skip(z) == "UTC"@ {
        assert(s.subrange(z, z + 3) =~= s.skip(z));
    }
    if s.skip(z) == "Z"@ {
        assert(s.subrange(z, z + 1) =~= s.skip(z));
    }
}

/// Unix seconds of a civil instant, built by machine arithmetic; the result
/// stays within about ten thousand years of 1970.
pub fn civil_seconds_x(y: i64, m: i64, d: i64, h: i64, mi: i64, s: i64) -> (r: i64)
    requires
        1 <= y <= 9999,
        1 <= m <= 12,
        1 <= d <= 31,
        0 <= h <= 23,
        0 <= mi <= 59,
        0 <= s <= 59,
    ensures
        r == civil_seconds(y as int, m as int, d as int, h as int, mi as int, s as int),
        -320000000000 <= r <= 320000000000,
{
    proof {
        lemma_year_start_day_bounds(y as int);
        lemma_month_start_day_bounds(y as int, m as int);
    }
    let days = year_start_day_x(y) + month_start_day_x(y, m) + d - 1;
    days * 86400 + h * 3600 + mi * 60 + s
}

/// The timestamp carried by a date text of the form feeds use: an optional
/// weekday prefix up to a comma, a one- or two-digit day, a month name, a
/// four-digit year, a clock time and a zone. `None` for any other text, an
/// impossible calendar date, or an unknown zone.
pub open spec fn parse_rfc2822_spec(s: Seq<char>) -> Option<int> {
    let c = find_from(s, 0, ',');
    let start = if c < s.len() {
        c + 2
    } else {
        0
    };
    if c < s.len() && (c + 2 > s.len() || s[c + 1] != ' ') {
        None
    } else {
        let sp1 = find_from(s, start, ' ');
        if sp1 >= s.len() {
            None
        } else {
            let day = if sp1 - start == 1 {
                digit_of(s[start])
            } else if sp1 - start == 2 {
                num2_at(s, start)
            } else {
                -1
            };
            if day < 1 {
                None
            } else if s.len() - sp1 < 20 {
                None
            } else {
                let m = month_at(s, sp1 + 1);
                let y = num4_at(s, sp1 + 5);
                let h = num2_at(s, sp1 + 10);
                let mi = num2_at(s, sp1 + 13);
                let sec = num2_at(s, sp1 + 16);
                if s[sp1 + 4] == ' ' && s[sp1 + 9] == ' ' && s[sp1 + 12] == ':' && s[sp1 + 15]
                    == ':' && s[sp1 + 18] == ' ' && m >= 1 && y >= 1 && 0 <= h <= 23 && 0 <= mi
                    <= 59 && 0 <= sec <= 59 && day <= days_in_month(y, m) {
                    match zone_offset_at(s, sp1 + 19) {
                        Some(off) => Some(civil_seconds(y, m, day, h, mi, sec) - off),
                        None => None,
                    }
                } else {
                    None
                }
            }
        }
    }
}

/// Parses a feed date text, as `parse_rfc2822_spec` describes.
pub fn parse_rfc2822(s: &str) -> (r: Option<i64>)
    ensures
        match r {
            Some(t) => parse_rfc2822_spec(s@) == Some(t as int),
            None => parse_rfc2822_spec(s@) is None,
        },
{
    let cs = crate::text::str_to_chars(s);
    let clen = cs.len();
    let comma = find_in_chars(&cs, 0, ',');
    proof {
        lemma_find_from_props(cs@, 0, ',');
    }
    let start: usize = if comma < clen {
        if clen - comma < 3 || cs[comma + 1] != ' ' {
            return None;
        }
        comma + 2
    } else {
        0
    };
    let sp1 = find_in_chars(&cs, start, ' ');
    proof {
        lemma_find_from_props(cs@, start as int, ' ');
    }
    if sp1 >= clen {
        return None;
    }
    let dlen = sp1 - start;
    let day = if dlen == 1 {
        digit_of_x(cs[start])
    } else if dlen == 2 {
        read2(&cs, start)
    } else {
        -1
    };
    if day < 1 {
        return None;
    }
    if clen - sp1 < 20 {
        return None;
    }
    let m = read_month(&cs, sp1 + 1);
    let y = read4(&cs, sp1 + 5);
    let h = read2(&cs, sp1 + 10);
    let mi = read2(&cs, sp1 + 13);
    let sec = read2(&cs, sp1 + 16);
    if cs[sp1 + 4] == ' ' && cs[sp1 + 9] == ' ' && cs[sp1 + 12] == ':' && cs[sp1 + 15] == ':'
        && cs[sp1 + 18] == ' ' && m >= 1 && y >= 1 && 0 <= h && h <= 23 && 0 <= mi && mi <= 59
        && 0 <= sec && sec <= 59 && day <= days_in_month_x(y, m) {
        match read_zone(&cs, sp1 + 19) {
            Some(off) => {
                let t = civil_seconds_x(y, m, day, h, mi, sec);
                Some(t - off)
            },
            None => None,
        }
    } else {
        None
    }
}

/// A number under one hundred, two digits wide.
pub open spec fn pad2(n: int) -> Seq<char> {
    if n < 10 {
        seq!['0'].add(crate::text::dec_rep(n))
    } else {
        crate::text::dec_rep(n)
    }
}

/// A number under ten thousand, four digits wide.
pub open spec fn pad4(n: int) -> Seq<char> {
    if n < 10 {
        seq!['0', '0', '0'].add(crate::text::dec_rep(n))
    } else if n < 100 {
        seq!['0', '0'].add(crate::text::dec_rep(n))
    } else if n < 1000 {
        seq!['0'].add(crate::text::dec_rep(n))
    } else {
        crate::text::dec_rep(n)
    }
}

/// The format text with each recognized directive replaced by the civil
/// component of `ts` it names: `%Y %m %d %H %M %S` and the literal `%%`;
/// any other directive, or a trailing `%`, is copied as it stands.
pub open spec fn format_from(fmt: Seq<char>, i: int, ts: int) -> Seq<char>
    decreases fmt.len() - i,
{
    if i < 0 || i >= fmt.len() {
        Seq::empty()
    } else if fmt[i] == '%' {
        if i + 1 < fmt.len() {
            let parts = civil_from_ts(ts);
            let c = fmt[i + 1];
            let piece = if c == 'Y' {
                pad4(parts.0)
            } else if c == 'm' {
                pad2(parts.1)
            } else if c == 'd' {
                pad2(parts.2)
            } else if c == 'H' {
                pad2(parts.3)
            } else if c == 'M' {
                pad2(parts.4)
            } else if c == 'S' {
                pad2(parts.5)
            } else if c == '%' {
                seq!['%']
            } else {
                seq!['%'].push(c)
            };
            piece.add(format_from(fmt, i + 2, ts))
        } else {
            seq!['%']
        }
    } else {
        seq![fmt[i]].add(format_from(fmt, i + 1, ts))
    }
}

/// Appends a two-digit rendering.
fn push_pad2(out: &mut Vec<char>, n: i64)
    requires
        0 <= n <= 99,
    ensures
        final(out)@ == old(out)@.add(pad2(n as int)),
{
    let ghost base = out@;
    if n < 10 {
        out.push('0');
    }
    let digits = crate::text::u64_to_dec_chars(n as u64);
    let mut k: usize = 0;
    let ghost mid = out@;
    while k < digits.len()
        invariant
            k <= digits@.len(),
            out@ == mid.add(digits@.take(k as int)),
        decreases digits@.len() - k,
    {
        let c = digits[k];
        out.push(c);
        k = k + 1;
        proof {
            assert(out@ =~= mid.add(digits@.take(k as int)));
        }
    }
    proof {
        assert(digits@.take(digits@.len() as int) =~= digits@);
        assert(out@ =~= base.add(pad2(n as int)));
    }
}

/// Appends a four-digit rendering.
fn push_pad4(out: &mut Vec<char>, n: i64)
    requires
        0 <= n <= 9999,
    ensures
        final(out)@ == old(out)@.add(pad4(n as int)),
{
    let ghost base = out@;
    if n < 10 {
        out.push('0');
        out.push('0');
        out.push('0');
    } else if n < 100 {
        out.push('0');
        out.push('0');
    } else if n < 1000 {
        out.push('0');
    }
    let digits = crate::text::u64_to_dec_chars(n as u64);
    let mut k: usize = 0;
    let ghost mid = out@;
    while k < digits.len()
        invariant
            k <= digits@.len(),
            out@ == mid.add(digits@.take(k as int)),
        decreases digits@.len() - k,
    {
        let c = digits[k];
        out.push(c);
        k = k + 1;
        proof {
            assert(out@ =~= mid.add(digits@.take(k as int)));
        }
    }
    proof {
        assert(digits@.take(digits@.len() as int) =~= digits@);
        assert(out@ =~= base.add(pad4(n as int)));
    }
}

/// Decides whether a timestamp falls within the covered civil years.
pub fn ts_in_civil_range_x(ts: i64) -> (r: bool)
    ensures
        r == ts_in_civil_range(ts as int),
{
    proof {
        crate::policy::lemma_div_shrinks(ts as int, 86400, i64::MIN as int, i64::MAX as int);
    }
    let day: i64 = match ts.checked_div_euclid(86400) {
        Some(q) => q,
        None => unreached(),
    };
    let lo = year_start_day_x(1);
    let hi = year_start_day_x(10000);
    lo <= day && day < hi
}

/// Renders `ts` under the given format text, as `format_from` describes.
pub fn format_ts(fmt: &Vec<char>, ts: i64) -> (r: Vec<char>)
    requires
        ts_in_civil_range(ts as int),
    ensures
        r@ == format_from(fmt@, 0, ts as int),
{
    let (y, m, d, h, mi, sec) = civil_from_ts_x(ts);
    let mut out: Vec<char> = Vec::new();
    let mut i: usize = 0;
    proof {
        assert(format_from(fmt@, 0, ts as int) =~= out@.add(format_from(fmt@, 0, ts as int)));
    }
    while i < fmt.len()
        invariant
            i <= fmt@.len(),
            (y as int, m as int, d as int, h as int, mi as int, sec as int) == civil_from_ts(
                ts as int,
            ),
            1 <= y <= 9999,
            1 <= m <= 12,
            1 <= d <= 31,
            0 <= h <= 23,
            0 <= mi <= 59,
            0 <= sec <= 59,
            format_from(fmt@, 0, ts as int) == out@.add(format_from(fmt@, i as int, ts as int)),
        decreases fmt@.len() - i,
    {
        let ghost pre = out@;
        let c = fmt[i];
        if c == '%' {
            if i + 1 < fmt.len() {
                let c2 = fmt[i + 1];
                if c2 == 'Y' {
                    push_pad4(&mut out, y);
                } else if c2 == 'm' {
                    push_pad2(&mut out, m);
                } else if c2 == 'd' {
                    push_pad2(&mut out, d);
                } else if c2 == 'H' {
                    push_pad2(&mut out, h);
                } else if c2 == 'M' {
                    push_pad2(&mut out, mi);
                } else if c2 == 'S' {
                    push_pad2(&mut out, sec);
                } else if c2 == '%' {
                    out.push('%');
                    proof {
                        assert(out@ =~= pre.add(seq!['%']));
                    }
                } else {
                    out.push('%');
                    out.push(c2);
                    proof {
                        assert(out@ =~= pre.add(seq!['%'].push(c2)));
                    }
                }
                i = i + 2;
            } else {
                out.push('%');
                i = i + 1;
                proof {
                    assert(out@ =~= pre.add(seq!['%']));
                    assert(format_from(fmt@, i - 1, ts as int) == seq!['%']);
                    assert(pre.add(seq!['%'].add(Seq::<char>::empty())) =~= out@.add(Seq::<
                        char,
                    >::empty()));
                    assert(format_from(fmt@, 0, ts as int) =~= out@.add(format_from(fmt@, i as int,
                    ts as int)));
                }
            }
        } else {
            out.push(c);
            i = i + 1;
            proof {
                assert(out@ =~= pre.add(seq![c]));
            }
        }
    }
    proof {
        assert(out@.add(Seq::<char>::empty()) =~= out@);
    }
    out
}

} // verus!
