//! Proleptic Gregorian calendar arithmetic and the date-list match used by
//! the `Calendar` block.

use vstd::prelude::*;

use crate::text::{is_white_space, is_white_space_char, push_zero_padded, str_equal, zero_padded};

verus! {

pub open spec fn leap_years_through(n: int) -> int {
    n / 4 - n / 100 + n / 400
}

pub open spec fn is_leap_year(y: int) -> bool {
    (y % 4 == 0 && y % 100 != 0) || y % 400 == 0
}

pub open spec fn days_in_month(y: int, m: int) -> int {
    if m == 2 {
        if is_leap_year(y) { 29 } else { 28 }
    } else if m == 4 || m == 6 || m == 9 || m == 11 {
        30
    } else {
        31
    }
}

pub open spec fn days_before_month(y: int, m: int) -> int {
    let base: int = if m == 1 { 0 }
        else if m == 2 { 31 }
        else if m == 3 { 59 }
        else if m == 4 { 90 }
        else if m == 5 { 120 }
        else if m == 6 { 151 }
        else if m == 7 { 181 }
        else if m == 8 { 212 }
        else if m == 9 { 243 }
        else if m == 10 { 273 }
        else if m == 11 { 304 }
        else { 334 };
    if m > 2 && is_leap_year(y) { base + 1 } else { base }
}

pub open spec fn is_valid_date(y: int, m: int, d: int) -> bool {
    1 <= m <= 12 && 1 <= d <= days_in_month(y, m)
}

pub open spec fn days_from_civil(y: int, m: int, d: int) -> int {
    365 * (y - 1970) + leap_years_through(y - 1) - leap_years_through(1969)
        + days_before_month(y, m) + d - 1
}

spec fn march_year_start(n: int) -> int {
    365 * n + leap_years_through(n)
}

#[verifier::spinoff_prover]
#[verifier::rlimit(40)]
proof fn lemma_year_of_era(doe: int)
    requires
        0 <= doe <= 146096,
    ensures
        ({
            let yoe = (doe - doe / 1460 + doe / 36524 - doe / 146096) / 365;
            &&& 0 <= yoe <= 399
            &&& march_year_start(yoe) <= doe < march_year_start(yoe + 1)
        }),
{
}

#[verifier::spinoff_prover]
proof fn lemma_leap_step(n: int)
    ensures
        leap_years_through(n) - leap_years_through(n - 1) == if is_leap_year(n) {
            1int
        } else {
            0int
        },
{
}

proof fn lemma_era_shift(era: int, yoe: int)
    ensures
        leap_years_through(400 * era + yoe) == 97 * era + leap_years_through(yoe),
        is_leap_year(400 * era + yoe) == is_leap_year(yoe),
{
    assert((400 * era + yoe) / 4 == 100 * era + yoe / 4) by (nonlinear_arith);
    assert((400 * era + yoe) / 100 == 4 * era + yoe / 100) by (nonlinear_arith);
    assert((400 * era + yoe) / 400 == era + yoe / 400) by (nonlinear_arith);
    assert((400 * era + yoe) % 4 == yoe % 4) by (nonlinear_arith);
    assert((400 * era + yoe) % 100 == yoe % 100) by (nonlinear_arith);
    assert((400 * era + yoe) % 400 == yoe % 400) by (nonlinear_arith);
}

/// Month and day within a year that starts on March 1st, for a day offset
/// `doy` into that year.
#[verifier::spinoff_prover]
proof fn lemma_march_month(doy: int, leap: bool)
    requires
        0 <= doy < 365 + if leap { 1int } else { 0int },
    ensures
        ({
            let mp = (5 * doy + 2) / 153;
            let d = doy - (153 * mp + 2) / 5 + 1;
            &&& 0 <= mp <= 11
            &&& 1 <= d
            &&& mp < 10 ==> d <= days_in_month(2001, mp + 3)
            &&& mp == 10 ==> d <= 31
            &&& mp == 11 ==> d <= if leap { 29int } else { 28int }
            &&& (153 * mp + 2) / 5 == if mp < 10 {
                days_before_month(2001, mp + 3) - 59
            } else if mp == 10 {
                306int
            } else {
                337int
            }
        }),
{
}

/// The day `z` days after 0000-03-01, split into 400-year eras the way
/// `civil_from_days` does, is the date that `days_from_civil` counts.
proof fn lemma_civil(z: int, era: int, doe: int, yoe: int, doy: int, mp: int, d: int)
    requires
        era == z / 146097,
        doe == z - era * 146097,
        yoe == (doe - doe / 1460 + doe / 36524 - doe / 146096) / 365,
        doy == doe - (365 * yoe + yoe / 4 - yoe / 100),
        mp == (5 * doy + 2) / 153,
        d == doy - (153 * mp + 2) / 5 + 1,
    ensures
        0 <= yoe <= 399,
        0 <= mp <= 11,
        ({
            let m = if mp < 10 { mp + 3 } else { mp - 9 };
            let y = if m <= 2 { yoe + era * 400 + 1 } else { yoe + era * 400 };
            &&& is_valid_date(y, m, d)
            &&& days_from_civil(y, m, d) == z - 719468
        }),
{
    assert(0 <= doe < 146097);
    lemma_year_of_era(doe);
    let big_y = 400 * era + yoe;
    lemma_era_shift(era, yoe);
    lemma_era_shift(era, yoe + 1);
    lemma_leap_step(yoe + 1);
    lemma_leap_step(big_y + 1);
    lemma_leap_step(big_y);
    assert(march_year_start(yoe + 1) - march_year_start(yoe) == 365 + if is_leap_year(yoe + 1) {
        1int
    } else {
        0int
    });
    lemma_march_month(doy, is_leap_year(yoe + 1));
    assert(is_leap_year(big_y + 1) == is_leap_year(yoe + 1)) by {
        assert(big_y + 1 == 400 * era + (yoe + 1));
    }
    // days from 0000-03-01 to March 1st of `big_y`
    assert(days_from_civil(big_y, 3, 1) + 719468 == 365 * big_y + leap_years_through(big_y));
    assert(365 * big_y + leap_years_through(big_y) + doy == z);
}


/// Every valid date of year `y` falls within that year's days.
proof fn lemma_day_within_year(y: int, m: int, d: int)
    requires
        is_valid_date(y, m, d),
    ensures
        0 <= days_before_month(y, m) + d - 1 < 365 + if is_leap_year(y) {
            1int
        } else {
            0int
        },
{
}

/// Leap-year counts never decrease.
proof fn lemma_leap_years_monotone(a: int, b: int)
    requires
        a <= b,
    ensures
        leap_years_through(a) <= leap_years_through(b),
    decreases b - a,
{
    if a < b {
        lemma_leap_step(b);
        lemma_leap_years_monotone(a, b - 1);
    }
}

/// January 1st of a later year comes at least a year later.
proof fn lemma_new_year_monotone(y1: int, y2: int)
    requires
        y1 < y2,
    ensures
        days_from_civil(y2, 1, 1) - days_from_civil(y1, 1, 1) >= 365 + if is_leap_year(y1) {
            1int
        } else {
            0int
        },
{
    lemma_leap_step(y1);
    lemma_leap_years_monotone(y1, y2 - 1);
}

/// Distinct valid dates are distinct days.
pub proof fn lemma_days_from_civil_injective(y1: int, m1: int, d1: int, y2: int, m2: int, d2: int)
    requires
        is_valid_date(y1, m1, d1),
        is_valid_date(y2, m2, d2),
        days_from_civil(y1, m1, d1) == days_from_civil(y2, m2, d2),
    ensures
        y1 == y2 && m1 == m2 && d1 == d2,
{
    lemma_day_within_year(y1, m1, d1);
    lemma_day_within_year(y2, m2, d2);
    if y1 < y2 {
        lemma_new_year_monotone(y1, y2);
    } else if y2 < y1 {
        lemma_new_year_monotone(y2, y1);
    }
    assert(y1 == y2);
}

/// The date (year, month, day) of day `days` since 1970-01-01.
pub open spec fn civil_date(days: int) -> (int, int, int) {
    choose|ymd: (int, int, int)|
        is_valid_date(ymd.0, ymd.1, ymd.2) && days_from_civil(ymd.0, ymd.1, ymd.2) == days
}

/// A valid date that falls on `days` is `civil_date(days)`.
pub proof fn lemma_civil_date(days: int, y: int, m: int, d: int)
    requires
        is_valid_date(y, m, d),
        days_from_civil(y, m, d) == days,
    ensures
        civil_date(days) == (y, m, d),
{
    let ymd = civil_date(days);
    assert(is_valid_date(ymd.0, ymd.1, ymd.2) && days_from_civil(ymd.0, ymd.1, ymd.2) == days) by {
        let t = (y, m, d);
        assert(is_valid_date(t.0, t.1, t.2) && days_from_civil(t.0, t.1, t.2) == days);
    }
    lemma_days_from_civil_injective(y, m, d, ymd.0, ymd.1, ymd.2);
}

/// The calendar day after `(y, m, d)`.
pub open spec fn next_day(ymd: (int, int, int)) -> (int, int, int) {
    if ymd.2 < days_in_month(ymd.0, ymd.1) {
        (ymd.0, ymd.1, ymd.2 + 1)
    } else if ymd.1 < 12 {
        (ymd.0, ymd.1 + 1, 1)
    } else {
        (ymd.0 + 1, 1, 1)
    }
}

/// The day after a valid date is a valid date, one day later.
pub proof fn lemma_next_day(y: int, m: int, d: int)
    requires
        is_valid_date(y, m, d),
    ensures
        is_valid_date(next_day((y, m, d)).0, next_day((y, m, d)).1, next_day((y, m, d)).2),
        days_from_civil(next_day((y, m, d)).0, next_day((y, m, d)).1, next_day((y, m, d)).2)
            == days_from_civil(y, m, d) + 1,
{
    if d < days_in_month(y, m) {
    } else if m < 12 {
        assert(days_before_month(y, m + 1) == days_before_month(y, m) + days_in_month(y, m)) by {
            if m == 1 {
            } else if m == 2 {
            } else if m == 3 {
            } else if m == 4 {
            } else if m == 5 {
            } else if m == 6 {
            } else if m == 7 {
            } else if m == 8 {
            } else if m == 9 {
            } else if m == 10 {
            } else {
                assert(m == 11);
            }
        }
    } else {
        lemma_leap_step(y);
        assert(m == 12 && d == 31);
    }
}

/// Day `n + 1` falls on the calendar day after day `n`: what
/// `civil_from_days` gives for consecutive days (its `ensures` supplies the
/// premises for every day it accepts).
pub proof fn law_civil_date_next_day(n: int)
    requires
        is_valid_date(civil_date(n).0, civil_date(n).1, civil_date(n).2),
        days_from_civil(civil_date(n).0, civil_date(n).1, civil_date(n).2) == n,
    ensures
        civil_date(n + 1) == next_day(civil_date(n)),
        is_valid_date(civil_date(n + 1).0, civil_date(n + 1).1, civil_date(n + 1).2),
        days_from_civil(civil_date(n + 1).0, civil_date(n + 1).1, civil_date(n + 1).2) == n + 1,
{
    let t = civil_date(n);
    lemma_next_day(t.0, t.1, t.2);
    let nx = next_day(t);
    lemma_civil_date(n + 1, nx.0, nx.1, nx.2);
}

/// Converts a count of days since 1970-01-01 to the proleptic Gregorian
/// `(year, month, day)` of that day.
pub fn civil_from_days(days: i64) -> (ymd: (i64, u32, u32))
    requires
        i64::MIN + 146_096 - 719_468 <= days <= i64::MAX - 719_468,
    ensures
        is_valid_date(ymd.0 as int, ymd.1 as int, ymd.2 as int),
        days_from_civil(ymd.0 as int, ymd.1 as int, ymd.2 as int) == days,
        civil_date(days as int) == (ymd.0 as int, ymd.1 as int, ymd.2 as int),
{
    let z = days + 719_468;
    let shifted = if z >= 0 {
        z
    } else {
        z - 146_096
    };
    let era = shifted / 146_097;
    assert(era == z / 146_097);
    let doe = z - era * 146_097;
    let yoe = (doe - doe / 1460 + doe / 36_524 - doe / 146_096) / 365;
    proof {
        lemma_year_of_era(doe as int);
    }
    let doy = doe - (365 * yoe + yoe / 4 - yoe / 100);
    let mp = (5 * doy + 2) / 153;
    proof {
        lemma_civil(z as int, era as int, doe as int, yoe as int, doy as int, mp as int,
            doy - (153 * mp + 2) / 5 + 1);
    }
    let y = yoe + era * 400;
    let d = (doy - (153 * mp + 2) / 5 + 1) as u32;
    let m = (if mp < 10 {
        mp + 3
    } else {
        mp - 9
    }) as u32;
    let y = if m <= 2 {
        y + 1
    } else {
        y
    };
    proof {
        lemma_civil_date(days as int, y as int, m as int, d as int);
    }
    (y, m, d)
}


/// `a` divided by `b`, rounded toward negative infinity (`i64::div_euclid`
/// for a positive divisor).
pub fn floor_div(a: i64, b: i64) -> (q: i64)
    requires
        b > 0,
    ensures
        q == a as int / b as int,
{
    if a >= 0 {
        a / b
    } else {
        let x = -(a + 1);
        proof {
            lemma_floor_of_negative(a as int, b as int);
        }
        -(x / b) - 1
    }
}

/// `a` modulo `b`, in `0..b` (`i64::rem_euclid` for a positive divisor).
pub fn floor_mod(a: i64, b: i64) -> (r: i64)
    requires
        b > 0,
    ensures
        r == a as int % b as int,
{
    if a >= 0 {
        a % b
    } else {
        let x = -(a + 1);
        proof {
            lemma_floor_of_negative(a as int, b as int);
        }
        b - 1 - x % b
    }
}

/// Floor division of a negative number through the division of its
/// (non-negative) complement.
proof fn lemma_floor_of_negative(a: int, b: int)
    requires
        a < 0,
        b > 0,
    ensures
        a / b == -((-(a + 1)) / b) - 1,
        a % b == b - 1 - (-(a + 1)) % b,
{
    let x = -(a + 1);
    vstd::arithmetic::div_mod::lemma_fundamental_div_mod(x, b);
    vstd::arithmetic::div_mod::lemma_mod_pos_bound(x, b);
    let q = x / b;
    let r = x % b;
    assert(a == (-q - 1) * b + (b - 1 - r)) by (nonlinear_arith)
        requires
            x == b * q + r,
            a == -x - 1,
    ;
    vstd::arithmetic::div_mod::lemma_fundamental_div_mod_converse(a, b, -q - 1, b - 1 - r);
}

/// The local wall clock, in milliseconds since the epoch, does not overflow.
pub open spec fn local_time_fits(utc_ms: i64, tz_offset_min: i64) -> bool {
    i64::MIN <= tz_offset_min * 60_000 <= i64::MAX
        && i64::MIN <= utc_ms + tz_offset_min * 60_000 <= i64::MAX
}

/// Whole seconds of local time since the epoch.
pub open spec fn local_seconds(utc_ms: i64, tz_offset_min: i64) -> int {
    (utc_ms + tz_offset_min * 60_000) / 1000
}

/// The local day, counted in days since 1970-01-01.
pub open spec fn local_day(utc_ms: i64, tz_offset_min: i64) -> int {
    local_seconds(utc_ms, tz_offset_min) / 86_400
}

/// The second of the local day, in `0..86400`.
pub open spec fn local_second_of_day(utc_ms: i64, tz_offset_min: i64) -> int {
    local_seconds(utc_ms, tz_offset_min) % 86_400
}

/// Splits the clock reading `utc_ms` (milliseconds since the epoch), shifted
/// by `tz_offset_min` minutes, into the local day and the second of that day.
pub fn local_time(utc_ms: i64, tz_offset_min: i64) -> (r: (i64, i64))
    requires
        local_time_fits(utc_ms, tz_offset_min),
    ensures
        r.0 == local_day(utc_ms, tz_offset_min),
        r.1 == local_second_of_day(utc_ms, tz_offset_min),
        0 <= r.1 < 86_400,
{
    let local_ms = utc_ms + tz_offset_min * 60_000;
    let local_secs = floor_div(local_ms, 1000);
    (floor_div(local_secs, 86_400), floor_mod(local_secs, 86_400))
}

/// Day of the week of day `days` since 1970-01-01 (a Thursday), with
/// Monday = 0 .. Sunday = 6.
pub open spec fn day_of_week_spec(days: int) -> u8 {
    ((days + 3) % 7) as u8
}

/// Day of the week (Monday = 0 .. Sunday = 6) of day `days` since the epoch.
pub fn day_of_week(days: i64) -> (dow: u8)
    ensures
        dow == day_of_week_spec(days as int),
        dow < 7,
{
    if days <= i64::MAX - 3 {
        floor_mod(days + 3, 7) as u8
    } else {
        floor_mod(days - 4, 7) as u8
    }
}

/// `"YYYY-MM-DD"` for the date, each field zero-padded as `{:04}` / `{:02}`
/// format it.
pub open spec fn date_text(y: int, m: int, d: int) -> Seq<char> {
    zero_padded(y, 4) + seq!['-'] + zero_padded(m, 2) + seq!['-'] + zero_padded(d, 2)
}

/// Formats a date as `"YYYY-MM-DD"`.
pub fn format_date(y: i64, m: u32, d: u32) -> (s: String)
    ensures
        s@ == date_text(y as int, m as int, d as int),
{
    let mut s = String::new();
    push_zero_padded(&mut s, y, 4);
    s.append("-");
    push_zero_padded(&mut s, m as i64, 2);
    s.append("-");
    push_zero_padded(&mut s, d as i64, 2);
    proof {
        reveal_strlit("-");
    }
    assert(s@ =~= date_text(y as int, m as int, d as int));
    s
}

/// A separator between entries of a date list: `,`, `;` or whitespace.
pub open spec fn is_list_separator(c: char) -> bool {
    c == ',' || c == ';' || is_white_space(c)
}

fn is_list_separator_char(c: char) -> (r: bool)
    ensures
        r == is_list_separator(c),
{
    c == ',' || c == ';' || is_white_space_char(c)
}

/// `s[i..j]` is a whole, non-empty entry of the list `s`.
pub open spec fn entry_at(s: Seq<char>, i: int, j: int) -> bool {
    &&& 0 <= i < j <= s.len()
    &&& (i == 0 || is_list_separator(s[i - 1]))
    &&& (j == s.len() || is_list_separator(s[j]))
    &&& forall|k: int| i <= k < j ==> !is_list_separator(#[trigger] s[k])
}

/// The separated list `s` has an entry equal to `t`.
pub open spec fn list_has_entry(s: Seq<char>, t: Seq<char>) -> bool {
    exists|i: int, j: int| entry_at(s, i, j) && s.subrange(i, j) == t
}

/// Whether the list `dates` (entries separated by commas, semicolons or
/// whitespace) holds an entry equal to `day`.
pub fn list_contains(dates: &str, day: &str) -> (r: bool)
    ensures
        r == list_has_entry(dates@, day@),
{
    let n = dates.unicode_len();
    let mut i: usize = 0;
    while i < n
        invariant
            n == dates@.len(),
            i <= n,
            i == 0 || i == n || is_list_separator(dates@[i - 1]) || is_list_separator(dates@[i as int]),
            forall|a: int, b: int|
                entry_at(dates@, a, b) && b <= i ==> dates@.subrange(a, b) != day@,
        decreases n - i,
    {
        if is_list_separator_char(dates.get_char(i)) {
            i += 1;
        } else {
            let start = i;
            while i < n && !is_list_separator_char(dates.get_char(i))
                invariant
                    n == dates@.len(),
                    start < n,
                    start + 1 <= i + 1,
                    start <= i <= n,
                    forall|k: int| start <= k < i ==> !is_list_separator(#[trigger] dates@[k]),
                decreases n - i,
            {
                i += 1;
            }
            assert(entry_at(dates@, start as int, i as int));
            if str_equal(dates.substring_char(start, i), day) {
                return true;
            }
            assert forall|a: int, b: int|
                entry_at(dates@, a, b) && b <= i implies dates@.subrange(a, b) != day@ by {
                if b > start {
                    if a < start {
                        assert(!is_list_separator(dates@[start - 1]));
                    }
                    if a > start {
                        assert(!is_list_separator(dates@[a - 1]));
                    }
                    if b < i {
                        assert(!is_list_separator(dates@[b]));
                    }
                }
            }
        }
    }
    assert forall|a: int, b: int| entry_at(dates@, a, b) implies dates@.subrange(a, b) != day@ by {
    }
    false
}

/// The `Calendar` block's output: whether today's local date, as
/// `"YYYY-MM-DD"`, is an entry of `dates`. The local date is that of the
/// clock reading `utc_ms` shifted by `tz_offset_min` minutes; a missing
/// date list yields `false`.
pub fn calendar_matches(dates: Option<&str>, tz_offset_min: i64, utc_ms: i64) -> (r: bool)
    requires
        local_time_fits(utc_ms, tz_offset_min),
    ensures
        r == match dates {
            Some(list) => {
                let ymd = civil_date(local_day(utc_ms, tz_offset_min));
                list_has_entry(list@, date_text(ymd.0, ymd.1, ymd.2))
            },
            None => false,
        },
{
    match dates {
        Some(list) => {
            let (days, _seconds) = local_time(utc_ms, tz_offset_min);
            let (y, m, d) = civil_from_days(days);
            let today = format_date(y, m, d);
            list_contains(list, today.as_str())
        },
        None => false,
    }
}

} // verus!
