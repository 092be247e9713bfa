//! Calendar date-time values and the fixed `YYYY/MM/DD HH:MM:SS` pattern
//! that the decoder reads them from.

use vstd::prelude::*;
use vstd::string::StringExecFns;
use crate::coerce::{digit_val, is_digit_char};

verus! {

/// A calendar date with a time of day; no time zone is attached.
#[derive(Clone, Copy, Debug, PartialEq, Eq, Structural)]
pub struct DateTime {
    pub year: u16,
    pub month: u8,
    pub day: u8,
    pub hour: u8,
    pub minute: u8,
    pub second: u8,
}

pub open spec fn is_leap_year(y: int) -> bool {
    y % 4 == 0 && (y % 100 != 0 || y % 400 == 0)
}

pub open spec fn days_in_month(y: int, m: int) -> int {
    if m == 2 {
        if is_leap_year(y) {
            29
        } else {
            28
        }
    } else if m == 4 || m == 6 || m == 9 || m == 11 {
        30
    } else {
        31
    }
}

/// The calendar values a decoded date-time may hold: a real day of a real
/// month, and a 24-hour time of day.
pub open spec fn valid_date_time(dt: DateTime) -> bool {
    &&& 1 <= dt.month <= 12
    &&& 1 <= dt.day <= days_in_month(dt.year as int, dt.month as int)
    &&& dt.hour < 24
    &&& dt.minute < 60
    &&& dt.second < 60
}

/// The combined text matches `YYYY/MM/DD HH:MM:SS` exactly: fixed width,
/// four-digit year, slash-separated date, space, colon-separated time.
pub open spec fn dt_pattern_ok(c: Seq<char>) -> bool {
    &&& c.len() == 19
    &&& is_digit_char(c[0]) && is_digit_char(c[1]) && is_digit_char(c[2]) && is_digit_char(c[3])
    &&& c[4] == '/'
    &&& is_digit_char(c[5]) && is_digit_char(c[6])
    &&& c[7] == '/'
    &&& is_digit_char(c[8]) && is_digit_char(c[9])
    &&& c[10] == ' '
    &&& is_digit_char(c[11]) && is_digit_char(c[12])
    &&& c[13] == ':'
    &&& is_digit_char(c[14]) && is_digit_char(c[15])
    &&& c[16] == ':'
    &&& is_digit_char(c[17]) && is_digit_char(c[18])
}

/// The six numeric fields read off a pattern-shaped text.
pub open spec fn dt_fields(c: Seq<char>) -> DateTime {
    DateTime {
        year: (digit_val(c[0]) * 1000 + digit_val(c[1]) * 100 + digit_val(c[2]) * 10 + digit_val(
            c[3],
        )) as u16,
        month: (digit_val(c[5]) * 10 + digit_val(c[6])) as u8,
        day: (digit_val(c[8]) * 10 + digit_val(c[9])) as u8,
        hour: (digit_val(c[11]) * 10 + digit_val(c[12])) as u8,
        minute: (digit_val(c[14]) * 10 + digit_val(c[15])) as u8,
        second: (digit_val(c[17]) * 10 + digit_val(c[18])) as u8,
    }
}

/// The date-time denoted by a combined `<date> <time>` text: the pattern
/// must match exactly and the values must be a valid calendar date-time.
pub open spec fn dt_of_combined(c: Seq<char>) -> Option<DateTime> {
    if dt_pattern_ok(c) && valid_date_time(dt_fields(c)) {
        Some(dt_fields(c))
    } else {
        None
    }
}

/// Date-time coercion of a field pair: both sub-fields must be present;
/// they are joined with one space and read against the fixed pattern, and
/// any failure yields an absent field.
pub open spec fn date_time_of(d: Option<Seq<char>>, t: Option<Seq<char>>) -> Option<DateTime> {
    match (d, t) {
        (Some(ds), Some(ts)) => dt_of_combined(ds + seq![' '] + ts),
        _ => None,
    }
}

fn digit_at(s: &str, i: usize) -> (r: Option<u8>)
    requires
        i < s@.len(),
    ensures
        match r {
            Some(v) => is_digit_char(s@[i as int]) && v == digit_val(s@[i as int]) && v <= 9,
            None => !is_digit_char(s@[i as int]),
        },
{
    let c = s.get_char(i);
    let v = c as u32;
    if 48 <= v && v <= 57 {
        Some((v - 48) as u8)
    } else {
        None
    }
}

fn is_leap_year_exec(y: u16) -> (r: bool)
    ensures
        r == is_leap_year(y as int),
{
    y % 4 == 0 && (y % 100 != 0 || y % 400 == 0)
}

fn days_in_month_exec(y: u16, m: u8) -> (r: u8)
    ensures
        r == days_in_month(y as int, m as int),
{
    if m == 2 {
        if is_leap_year_exec(y) {
            29
        } else {
            28
        }
    } else if m == 4 || m == 6 || m == 9 || m == 11 {
        30
    } else {
        31
    }
}

fn dt_from_combined(s: &str) -> (r: Option<DateTime>)
    ensures
        r == dt_of_combined(s@),
{
    let n = s.unicode_len();
    if n != 19 {
        return None;
    }
    if !(s.get_char(4) == '/' && s.get_char(7) == '/' && s.get_char(10) == ' ' && s.get_char(13)
        == ':' && s.get_char(16) == ':') {
        return None;
    }
    let y0 = match digit_at(s, 0) {
        Some(v) => v,
        None => return None,
    };
    let y1 = match digit_at(s, 1) {
        Some(v) => v,
        None => return None,
    };
    let y2 = match digit_at(s, 2) {
        Some(v) => v,
        None => return None,
    };
    let y3 = match digit_at(s, 3) {
        Some(v) => v,
        None => return None,
    };
    let m0 = match digit_at(s, 5) {
        Some(v) => v,
        None => return None,
    };
    let m1 = match digit_at(s, 6) {
        Some(v) => v,
        None => return None,
    };
    let d0 = match digit_at(s, 8) {
        Some(v) => v,
        None => return None,
    };
    let d1 = match digit_at(s, 9) {
        Some(v) => v,
        None => return None,
    };
    let h0 = match digit_at(s, 11) {
        Some(v) => v,
        None => return None,
    };
    let h1 = match digit_at(s, 12) {
        Some(v) => v,
        None => return None,
    };
    let mi0 = match digit_at(s, 14) {
        Some(v) => v,
        None => return None,
    };
    let mi1 = match digit_at(s, 15) {
        Some(v) => v,
        None => return None,
    };
    let s0 = match digit_at(s, 17) {
        Some(v) => v,
        None => return None,
    };
    let s1 = match digit_at(s, 18) {
        Some(v) => v,
        None => return None,
    };
    let dt = DateTime {
        year: y0 as u16 * 1000 + y1 as u16 * 100 + y2 as u16 * 10 + y3 as u16,
        month: m0 * 10 + m1,
        day: d0 * 10 + d1,
        hour: h0 * 10 + h1,
        minute: mi0 * 10 + mi1,
        second: s0 * 10 + s1,
    };
    proof {
        assert(dt_pattern_ok(s@));
        assert(dt == dt_fields(s@));
    }
    let ok = 1 <= dt.month && dt.month <= 12 && 1 <= dt.day && dt.day <= days_in_month_exec(
        dt.year,
        dt.month,
    ) && dt.hour < 24 && dt.minute < 60 && dt.second < 60;
    if ok {
        Some(dt)
    } else {
        None
    }
}

/// Date-time coercion: both sub-fields must be present; they are joined
/// with one space and must match `YYYY/MM/DD HH:MM:SS` exactly, with valid
/// calendar values; anything else yields an absent field.
pub fn parse_date_time(opt_date: Option<&str>, opt_time: Option<&str>) -> (r: Option<DateTime>)
    ensures
        r == date_time_of(opt_date.deep_view(), opt_time.deep_view()),
{
    match (opt_date, opt_time) {
        (Some(d), Some(t)) => {
            let mut combined = String::from_str(d);
            combined.append(" ");
            combined.append(t);
            proof {
                reveal_strlit(" ");
                assert(combined@ =~= d@ + seq![' '] + t@);
            }
            dt_from_combined(combined.as_str())
        },
        _ => None,
    }
}

} // verus!
