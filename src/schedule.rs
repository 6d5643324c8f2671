//! Turns the raw date strings of an answer into a start and an end.
use vstd::prelude::*;

use crate::datetime::{days_in_month, month_length, DateTime};
use crate::fields::opt_view;
use crate::text::{chars_of, decimal_value, is_digit};

verus! {

/// When an event starts and ends; the end is always later than the start.
#[derive(Clone, Copy, Debug, PartialEq, Eq, Structural)]
pub struct NormalizedSchedule {
    pub start: DateTime,
    pub end: DateTime,
}

pub open spec fn digits_at(s: Seq<char>, from: int, to: int) -> bool {
    forall|i: int| from <= i < to ==> is_digit(#[trigger] s[i])
}

pub open spec fn number_at(s: Seq<char>, from: int, to: int) -> int {
    decimal_value(s.subrange(from, to))
}

/// A start written `HH:DD:MM:YYYY` (hour, day, month, year), at minute and second zero.
pub open spec fn parse_start_spec(s: Seq<char>) -> Option<DateTime> {
    if s.len() == 13 && s[2] == ':' && s[5] == ':' && s[8] == ':' && digits_at(s, 0, 2)
        && digits_at(s, 3, 5) && digits_at(s, 6, 8) && digits_at(s, 9, 13) {
        let dt = DateTime {
            year: number_at(s, 9, 13) as u16,
            month: number_at(s, 6, 8) as u8,
            day: number_at(s, 3, 5) as u8,
            hour: number_at(s, 0, 2) as u8,
            minute: 0,
            second: 0,
        };
        if dt.wf() {
            Some(dt)
        } else {
            None
        }
    } else {
        None
    }
}

/// The longest a month can be, in any year.
pub open spec fn max_month_length(m: int) -> int {
    if m == 2 {
        29
    } else {
        days_in_month(1, m)
    }
}

/// A last day written `DD:MM` (day, month), as `(day, month)`.
pub open spec fn parse_end_spec(s: Seq<char>) -> Option<(u8, u8)> {
    if s.len() == 5 && s[2] == ':' && digits_at(s, 0, 2) && digits_at(s, 3, 5) {
        let d = number_at(s, 0, 2);
        let m = number_at(s, 3, 5);
        if 1 <= m <= 12 && 1 <= d <= max_month_length(m) {
            Some((d as u8, m as u8))
        } else {
            None
        }
    } else {
        None
    }
}

/// The end of day `d` of month `m`: in the start's year where that is later than the start,
/// else in the year after; `None` where that day does not exist in the year chosen.
pub open spec fn end_of_day_after(start: DateTime, d: u8, m: u8) -> Option<DateTime> {
    let same = DateTime { year: start.year, month: m, day: d, hour: 23, minute: 59, second: 59 };
    let next = DateTime {
        year: (start.year + 1) as u16,
        month: m,
        day: d,
        hour: 23,
        minute: 59,
        second: 59,
    };
    if same.wf() && start.before(same) {
        Some(same)
    } else if start.year < u16::MAX && next.wf() {
        Some(next)
    } else {
        None
    }
}

pub open spec fn start_spec(start_raw: Option<Seq<char>>, now: DateTime) -> DateTime {
    match start_raw {
        Some(s) => match parse_start_spec(s) {
            Some(dt) => dt,
            None => now,
        },
        None => now,
    }
}

/// The end that a last-day string fixes, where it fixes one.
pub open spec fn fixed_end(start: DateTime, end_raw: Option<Seq<char>>) -> Option<DateTime> {
    match end_raw {
        Some(s) => match parse_end_spec(s) {
            Some((d, m)) => end_of_day_after(start, d, m),
            None => None,
        },
        None => None,
    }
}

fn all_digits(v: &Vec<char>, from: usize, to: usize) -> (r: bool)
    requires
        from <= to <= v@.len(),
    ensures
        r == digits_at(v@, from as int, to as int),
{
    let mut i: usize = from;
    while i < to
        invariant
            from <= i <= to <= v@.len(),
            digits_at(v@, from as int, i as int),
        decreases to - i,
    {
        if !('0' <= v[i] && v[i] <= '9') {
            return false;
        }
        i = i + 1;
    }
    true
}

fn number(v: &Vec<char>, from: usize, to: usize) -> (r: u32)
    requires
        from <= to <= v@.len(),
        to - from <= 4,
        digits_at(v@, from as int, to as int),
    ensures
        r == number_at(v@, from as int, to as int),
        r < 10000,
        to - from <= 2 ==> r < 100,
{
    let mut acc: u32 = 0;
    let mut i: usize = from;
    while i < to
        invariant
            from <= i <= to <= v@.len(),
            to - from <= 4,
            digits_at(v@, from as int, to as int),
            acc == decimal_value(v@.subrange(from as int, i as int)),
            acc < (if i - from == 0 { 1int } else if i - from == 1 { 10 } else if i - from == 2 {
                100
            } else if i - from == 3 { 1000 } else { 10000 }),
        decreases to - i,
    {
        assert(v@.subrange(from as int, i + 1).drop_last() =~= v@.subrange(from as int, i as int));
        assert(is_digit(v@[i as int]));
        acc = acc * 10 + (v[i] as u32 - 48);
        i = i + 1;
    }
    acc
}

/// Reads a start written `HH:DD:MM:YYYY`; `None` where the text is not exactly that or names
/// no real moment.
pub fn parse_start(s: &str) -> (r: Option<DateTime>)
    ensures
        r == parse_start_spec(s@),
        r matches Some(dt) ==> dt.year < 10000,
{
    let v = chars_of(s);
    if v.len() != 13 || v[2] != ':' || v[5] != ':' || v[8] != ':' {
        return None;
    }
    if !(all_digits(&v, 0, 2) && all_digits(&v, 3, 5) && all_digits(&v, 6, 8) && all_digits(
        &v,
        9,
        13,
    )) {
        return None;
    }
    let hour = number(&v, 0, 2);
    let day = number(&v, 3, 5);
    let month = number(&v, 6, 8);
    let year = number(&v, 9, 13);
    if hour < 24 && 1 <= month && month <= 12 && day >= 1 && day <= 31 {
        let dt = DateTime {
            year: year as u16,
            month: month as u8,
            day: day as u8,
            hour: hour as u8,
            minute: 0,
            second: 0,
        };
        if dt.day <= month_length(dt.year, dt.month) {
            return Some(dt);
        }
    }
    None
}

/// Reads a last day written `DD:MM` as `(day, month)`; `None` where the text is not exactly
/// that or no year has such a day.
pub fn parse_end(s: &str) -> (r: Option<(u8, u8)>)
    ensures
        r == parse_end_spec(s@),
{
    let v = chars_of(s);
    if v.len() != 5 || v[2] != ':' {
        return None;
    }
    if !(all_digits(&v, 0, 2) && all_digits(&v, 3, 5)) {
        return None;
    }
    let d = number(&v, 0, 2);
    let m = number(&v, 3, 5);
    if 1 <= m && m <= 12 && 1 <= d {
        let longest: u32 = if m == 2 { 29 } else { month_length(1, m as u8) as u32 };
        if d <= longest {
            return Some((d as u8, m as u8));
        }
    }
    None
}

fn end_after(start: &DateTime, d: u8, m: u8) -> (r: Option<DateTime>)
    requires
        start.wf(),
        1 <= m <= 12,
    ensures
        r == end_of_day_after(*start, d, m),
{
    let same = DateTime { year: start.year, month: m, day: d, hour: 23, minute: 59, second: 59 };
    if 1 <= d && d <= month_length(start.year, m) && start.is_before(&same) {
        return Some(same);
    }
    if start.year < u16::MAX {
        let next = DateTime {
            year: start.year + 1,
            month: m,
            day: d,
            hour: 23,
            minute: 59,
            second: 59,
        };
        if 1 <= d && d <= month_length(next.year, m) {
            return Some(next);
        }
    }
    None
}

/// Turns the raw start and last day into a schedule. A start that does not parse becomes
/// `now`; a last day that parses ends the event at 23:59:59 of that day (in the start's
/// year, or the next year where that day would not come after the start); otherwise the
/// event lasts two hours.
pub fn normalize(start_raw: &Option<String>, end_raw: &Option<String>, now: DateTime) -> (r:
    NormalizedSchedule)
    requires
        now.wf(),
        now.year < u16::MAX,
    ensures
        r.start == start_spec(opt_view(*start_raw), now),
        r.start.wf(),
        r.end.wf(),
        r.start.before(r.end),
        match fixed_end(r.start, opt_view(*end_raw)) {
            Some(e) => r.end == e,
            None => r.end.seconds() == r.start.seconds() + 2 * 3600,
        },
{
    let start = match start_raw {
        Some(s) => match parse_start(s.as_str()) {
            Some(dt) => dt,
            None => now,
        },
        None => now,
    };
    let fixed = match end_raw {
        Some(s) => match parse_end(s.as_str()) {
            Some((d, m)) => end_after(&start, d, m),
            None => None,
        },
        None => None,
    };
    let end = match fixed {
        Some(e) => e,
        None => start.plus_two_hours(),
    };
    NormalizedSchedule { start, end }
}

} // verus!

verus! {

/// A start that parses does not depend on the moment of evaluation.
pub proof fn law_parsed_start_ignores_now(s: Seq<char>, now1: DateTime, now2: DateTime)
    requires
        parse_start_spec(s) is Some,
    ensures
        start_spec(Some(s), now1) == start_spec(Some(s), now2),
        start_spec(Some(s), now1) == parse_start_spec(s)->0,
{
}

/// A start that does not parse, or is missing, becomes the moment of evaluation.
pub proof fn law_unparsed_start_is_now(start_raw: Option<Seq<char>>, now: DateTime)
    requires
        start_raw matches Some(s) ==> parse_start_spec(s) is None,
    ensures
        start_spec(start_raw, now) == now,
{
}

} // verus!
