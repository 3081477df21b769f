//! Weekly time-of-day schedule: parsing of `"HH:MM"` times and day-letter
//! masks, and the occupancy decision of the `Schedule` block.

use vstd::prelude::*;

use crate::calendar::{day_of_week, day_of_week_spec, local_time, local_time_fits, local_day, local_second_of_day};
use crate::text::{parse_u32, parse_u32_spec, trim, trim_str};

verus! {

/// Index of the first `':'` in `s`, if there is one.
pub open spec fn first_colon(s: Seq<char>) -> Option<int> {
    if exists|i: int| 0 <= i < s.len() && s[i] == ':' {
        Some(
            choose|i: int|
                0 <= i < s.len() && s[i] == ':' && forall|j: int| 0 <= j < i ==> s[j] != ':',
        )
    } else {
        None
    }
}

/// Minutes since midnight denoted by `"HH:MM"` (24h, each part trimmed and
/// parsed as a `u32`), or `None` when the text is not such a time.
pub open spec fn parse_hhmm_spec(s: Seq<char>) -> Option<u32> {
    match first_colon(s) {
        None => None,
        Some(i) => match (
            parse_u32_spec(trim(s.subrange(0, i))),
            parse_u32_spec(trim(s.subrange(i + 1, s.len() as int))),
        ) {
            (Some(h), Some(m)) => if h <= 23 && m <= 59 {
                Some((h * 60 + m) as u32)
            } else {
                None
            },
            _ => None,
        },
    }
}

/// Parses `"HH:MM"` (24h) to minutes since midnight. Returns `None` on bad
/// input.
pub fn parse_hhmm(s: &str) -> (r: Option<u32>)
    ensures
        r == parse_hhmm_spec(s@),
{
    let n = s.unicode_len();
    let mut i: usize = 0;
    while i < n && s.get_char(i) != ':'
        invariant
            n == s@.len(),
            i <= n,
            forall|j: int| 0 <= j < i ==> s@[j] != ':',
        decreases n - i,
    {
        i += 1;
    }
    if i == n {
        assert(first_colon(s@) is None);
        return None;
    }
    proof {
        let k = choose|k: int|
            0 <= k < s@.len() && s@[k] == ':' && forall|j: int| 0 <= j < k ==> s@[j] != ':';
        assert(s@[i as int] == ':');
        if k < i {
        } else if k > i {
            assert(s@[i as int] != ':');
        }
        assert(first_colon(s@) == Some(i as int));
    }
    let hours = parse_u32(trim_str(s.substring_char(0, i)));
    let minutes = parse_u32(trim_str(s.substring_char(i + 1, n)));
    match (hours, minutes) {
        (Some(h), Some(m)) => {
            if h > 23 || m > 59 {
                None
            } else {
                Some(h * 60 + m)
            }
        },
        _ => None,
    }
}

/// The mask bit that a day letter selects (`M T W R F S U`, any case; bit 0
/// is Monday, bit 6 Sunday), or `0` for any other character.
pub open spec fn day_letter_bit(c: char) -> u8 {
    let u = if 97 <= c as u32 <= 122 {
        (c as u32 - 32) as u32
    } else {
        c as u32
    };
    if u == 77 {
        1
    } else if u == 84 {
        2
    } else if u == 87 {
        4
    } else if u == 82 {
        8
    } else if u == 70 {
        16
    } else if u == 83 {
        32
    } else if u == 85 {
        64
    } else {
        0
    }
}

/// The day mask of a day-letter string: the union of the bits of its letters.
pub open spec fn parse_days_spec(s: Seq<char>) -> u8
    decreases s.len(),
{
    if s.len() == 0 {
        0
    } else {
        parse_days_spec(s.drop_last()) | day_letter_bit(s.last())
    }
}

/// Parses a day-mask string like `"MTWRF"` into a bitmask where bit 0 is
/// Monday and bit 6 Sunday. Unknown characters are ignored.
pub fn parse_days(s: &str) -> (mask: u8)
    ensures
        mask == parse_days_spec(s@),
{
    let n = s.unicode_len();
    let mut mask: u8 = 0;
    let mut i: usize = 0;
    while i < n
        invariant
            n == s@.len(),
            i <= n,
            mask == parse_days_spec(s@.subrange(0, i as int)),
        decreases n - i,
    {
        let c = s.get_char(i);
        let u = c as u32;
        let upper = if 97 <= u && u <= 122 {
            u - 32
        } else {
            u
        };
        let bit: u8 = if upper == 77 {
            1
        } else if upper == 84 {
            2
        } else if upper == 87 {
            4
        } else if upper == 82 {
            8
        } else if upper == 70 {
            16
        } else if upper == 83 {
            32
        } else if upper == 85 {
            64
        } else {
            0
        };
        assert(s@.subrange(0, i + 1).drop_last() =~= s@.subrange(0, i as int));
        mask = mask | bit;
        i += 1;
    }
    assert(s@.subrange(0, n as int) =~= s@);
    mask
}

/// Whether day `dow` (0 = Monday .. 6 = Sunday) is selected in `mask`.
pub open spec fn day_selected(mask: u8, dow: u8) -> bool {
    mask & (1u8 << dow) != 0
}

/// Whether the schedule window `[start..end)` (minutes since midnight) on the
/// days of `mask` covers minute `now_minutes` of day `dow`. A window with
/// `start > end` crosses midnight and belongs to the day it opens on; an
/// empty window (`start == end`) is never occupied.
pub open spec fn window_occupied(start: u32, end: u32, mask: u8, dow: u8, now_minutes: u32) -> bool {
    if start == end {
        false
    } else if start < end {
        start <= now_minutes < end && day_selected(mask, dow)
    } else if now_minutes >= start {
        day_selected(mask, dow)
    } else if now_minutes < end {
        day_selected(mask, ((dow + 6) % 7) as u8)
    } else {
        false
    }
}

/// Occupancy of the window for a given local day of the week and minute.
pub fn schedule_window_occupied(start: u32, end: u32, days_mask: u8, dow: u8, now_minutes: u32) -> (r: bool)
    requires
        dow < 7,
    ensures
        r == window_occupied(start, end, days_mask, dow, now_minutes),
{
    if start == end {
        false
    } else if start < end {
        (now_minutes >= start && now_minutes < end) && (days_mask & (1u8 << dow)) != 0
    } else if now_minutes >= start {
        (days_mask & (1u8 << dow)) != 0
    } else if now_minutes < end {
        let prev = (dow + 6) % 7;
        (days_mask & (1u8 << prev)) != 0
    } else {
        false
    }
}

/// The `Schedule` block's output for the text inputs `start`, `end` and
/// `days`, the zone offset `tz_offset_min` (minutes added to UTC) and the
/// clock reading `utc_ms` (milliseconds since the epoch). A missing or
/// unparsable input yields `false`.
pub fn schedule_occupied(
    start: Option<&str>,
    end: Option<&str>,
    days: Option<&str>,
    tz_offset_min: i64,
    utc_ms: i64,
) -> (r: bool)
    requires
        local_time_fits(utc_ms, tz_offset_min),
    ensures
        r == match (start, end, days) {
            (Some(s), Some(e), Some(d)) => match (parse_hhmm_spec(s@), parse_hhmm_spec(e@)) {
                (Some(s), Some(e)) => window_occupied(
                    s,
                    e,
                    parse_days_spec(d@),
                    day_of_week_spec(local_day(utc_ms, tz_offset_min)),
                    (local_second_of_day(utc_ms, tz_offset_min) / 60) as u32,
                ),
                _ => false,
            },
            _ => false,
        },
{
    let start = match start {
        Some(s) => match parse_hhmm(s) {
            Some(v) => v,
            None => return false,
        },
        None => return false,
    };
    let end = match end {
        Some(s) => match parse_hhmm(s) {
            Some(v) => v,
            None => return false,
        },
        None => return false,
    };
    let days_mask = match days {
        Some(s) => parse_days(s),
        None => return false,
    };
    let (days_since_epoch, seconds_of_day) = local_time(utc_ms, tz_offset_min);
    let dow = day_of_week(days_since_epoch);
    let now_minutes = (seconds_of_day / 60) as u32;
    schedule_window_occupied(start, end, days_mask, dow, now_minutes)
}

} // verus!
