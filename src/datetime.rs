//! Naive calendar timestamps: validity, day counting, and the two-hour step.
use vstd::prelude::*;

verus! {

/// A naive (time-zone-free) date and time, to the second.
#[derive(Clone, Copy, Debug, PartialEq, Eq, Structural)]
pub struct DateTime {
    pub year: u16,
    pub month: u8,
    pub day: u8,
    pub hour: u8,
    pub minute: u8,
    pub second: u8,
}

pub open spec fn is_leap(y: int) -> bool {
    y % 4 == 0 && (y % 100 != 0 || y % 400 == 0)
}

pub open spec fn days_in_month(y: int, m: int) -> int {
    if m == 2 {
        if is_leap(y) {
            29
        } else {
            28
        }
    } else if m == 4 || m == 6 || m == 9 || m == 11 {
        30
    } else {
        31
    }
}

pub open spec fn days_in_year(y: int) -> int {
    if is_leap(y) {
        366
    } else {
        365
    }
}

/// Days in the years `0 .. y`.
pub open spec fn days_before_year(y: nat) -> int
    decreases y,
{
    if y == 0 {
        0
    } else {
        days_before_year((y - 1) as nat) + days_in_year(y - 1)
    }
}

/// Days in the months `1 .. m` of year `y`.
pub open spec fn days_before_month(y: int, m: nat) -> int
    decreases m,
{
    if m <= 1 {
        0
    } else {
        days_before_month(y, (m - 1) as nat) + days_in_month(y, m - 1)
    }
}

impl DateTime {
    /// The fields name a real moment of the proleptic Gregorian calendar.
    pub open spec fn wf(self) -> bool {
        1 <= self.month <= 12 && 1 <= self.day <= days_in_month(self.year as int, self.month as int)
            && self.hour < 24 && self.minute < 60 && self.second < 60
    }

    /// Days from 0000-01-01 to this date.
    pub open spec fn day_number(self) -> int {
        days_before_year(self.year as nat) + days_before_month(self.year as int, self.month as nat)
            + self.day - 1
    }

    /// Seconds from 0000-01-01T00:00:00 to this moment.
    pub open spec fn seconds(self) -> int {
        self.day_number() * 86400 + self.hour * 3600 + self.minute * 60 + self.second
    }

    /// Strictly earlier, field by field from the year down.
    pub open spec fn before(self, o: DateTime) -> bool {
        if self.year != o.year {
            self.year < o.year
        } else if self.month != o.month {
            self.month < o.month
        } else if self.day != o.day {
            self.day < o.day
        } else if self.hour != o.hour {
            self.hour < o.hour
        } else if self.minute != o.minute {
            self.minute < o.minute
        } else {
            self.second < o.second
        }
    }

    /// Whether `self` is strictly earlier than `o`.
    pub fn is_before(&self, o: &DateTime) -> (r: bool)
        ensures
            r == self.before(*o),
    {
        if self.year != o.year {
            self.year < o.year
        } else if self.month != o.month {
            self.month < o.month
        } else if self.day != o.day {
            self.day < o.day
        } else if self.hour != o.hour {
            self.hour < o.hour
        } else if self.minute != o.minute {
            self.minute < o.minute
        } else {
            self.second < o.second
        }
    }

    /// The same moment two hours later.
    pub fn plus_two_hours(&self) -> (r: DateTime)
        requires
            self.wf(),
            self.year < u16::MAX,
        ensures
            r.wf(),
            r.seconds() == self.seconds() + 2 * 3600,
            self.before(r),
    {
        if self.hour < 22 {
            DateTime { hour: self.hour + 2, ..*self }
        } else {
            let d = next_day(self.year, self.month, self.day);
            proof {
                lemma_next_day(self.year, self.month, self.day, d);
            }
            DateTime {
                year: d.0,
                month: d.1,
                day: d.2,
                hour: self.hour - 22,
                minute: self.minute,
                second: self.second,
            }
        }
    }

    /// The last second (23:59:59) of this date.
    pub fn end_of_day(&self) -> (r: DateTime)
        requires
            self.wf(),
        ensures
            r == (DateTime { hour: 23, minute: 59, second: 59, ..*self }),
            r.wf(),
    {
        DateTime { hour: 23, minute: 59, second: 59, ..*self }
    }
}

pub fn is_leap_year(y: u16) -> (r: bool)
    ensures
        r == is_leap(y as int),
{
    y % 4 == 0 && (y % 100 != 0 || y % 400 == 0)
}

pub fn month_length(y: u16, m: u8) -> (r: u8)
    ensures
        r == days_in_month(y as int, m as int),
{
    if m == 2 {
        if is_leap_year(y) {
            29
        } else {
            28
        }
    } else if m == 4 || m == 6 || m == 9 || m == 11 {
        30
    } else {
        31
    }
}

/// The date after `y-m-d`.
fn next_day(y: u16, m: u8, d: u8) -> (r: (u16, u8, u8))
    requires
        1 <= m <= 12,
        1 <= d <= days_in_month(y as int, m as int),
        y < u16::MAX,
    ensures
        r == (if d < days_in_month(y as int, m as int) {
            (y, m, (d + 1) as u8)
        } else if m < 12 {
            (y, (m + 1) as u8, 1u8)
        } else {
            ((y + 1) as u16, 1u8, 1u8)
        }),
{
    if d < month_length(y, m) {
        (y, m, d + 1)
    } else if m < 12 {
        (y, m + 1, 1)
    } else {
        (y + 1, 1, 1)
    }
}

/// The months of a year add up to the year.
pub proof fn lemma_months_fill_year(y: int)
    ensures
        days_before_month(y, 13) == days_in_year(y),
{
    reveal_with_fuel(days_before_month, 13);
}

proof fn lemma_next_day(y: u16, m: u8, d: u8, r: (u16, u8, u8))
    requires
        1 <= m <= 12,
        1 <= d <= days_in_month(y as int, m as int),
        y < u16::MAX,
        r == (if d < days_in_month(y as int, m as int) {
            (y, m, (d + 1) as u8)
        } else if m < 12 {
            (y, (m + 1) as u8, 1u8)
        } else {
            ((y + 1) as u16, 1u8, 1u8)
        }),
    ensures
        1 <= r.1 <= 12,
        1 <= r.2 <= days_in_month(r.0 as int, r.1 as int),
        days_before_year(r.0 as nat) + days_before_month(r.0 as int, r.1 as nat) + r.2 == days_before_year(
            y as nat,
        ) + days_before_month(y as int, m as nat) + d + 1,
        (DateTime { year: y, month: m, day: d, hour: 0, minute: 0, second: 0 }).before(
            DateTime { year: r.0, month: r.1, day: r.2, hour: 0, minute: 0, second: 0 },
        ),
{
    if d < days_in_month(y as int, m as int) {
    } else if m < 12 {
        assert(days_before_month(y as int, (m + 1) as nat) == days_before_month(y as int, m as nat)
            + days_in_month(y as int, m as int));
    } else {
        lemma_months_fill_year(y as int);
        assert(days_before_month(y as int, 13) == days_before_month(y as int, 12) + 31);
        assert(days_before_year((y + 1) as nat) == days_before_year(y as nat) + days_in_year(
            y as int,
        ));
        assert(days_before_month((y + 1) as int, 1) == 0);
    }
}

} // verus!

verus! {

fn year_length(y: u16) -> (r: u64)
    ensures
        r == days_in_year(y as int),
{
    if is_leap_year(y) {
        366
    } else {
        365
    }
}

/// 1970-01-01T00:00:00.
pub open spec fn unix_epoch() -> DateTime {
    DateTime { year: 1970, month: 1, day: 1, hour: 0, minute: 0, second: 0 }
}

/// The moment `secs` seconds after the Unix epoch; `None` where its year does not fit `u16`.
pub fn from_unix_seconds(secs: u64) -> (r: Option<DateTime>)
    ensures
        r matches Some(dt) ==> dt.wf() && dt.seconds() == unix_epoch().seconds() + secs,
        r is None ==> unix_epoch().seconds() + secs >= days_before_year(65536) * 86400,
{
    let total: u64 = secs / 86400;
    let rem: u64 = secs % 86400;
    let mut days: u64 = total;
    let mut y: u16 = 1970;
    assert(secs == total * 86400 + rem);
    while days >= year_length(y)
        invariant
            days_before_year(y as nat) + days == days_before_year(1970) + total,
            y >= 1970,
            secs == total * 86400 + rem,
            rem < 86400,
        decreases u16::MAX - y,
    {
        let len: u64 = year_length(y);
        if y == u16::MAX {
            assert(days_before_year(65536) == days_before_year(65535) + days_in_year(65535));
            return None;
        }
        assert(days_before_year((y + 1) as nat) == days_before_year(y as nat) + days_in_year(y as int));
        days = days - len;
        y = y + 1;
    }
    let mut m: u8 = 1;
    proof {
        lemma_months_fill_year(y as int);
    }
    while days >= month_length(y, m) as u64
        invariant
            1 <= m <= 12,
            days_before_month(y as int, m as nat) + days + days_before_year(y as nat) == days_before_year(1970) + total,
            days < days_in_year(y as int) - days_before_month(y as int, m as nat),
            days_before_month(y as int, 13) == days_in_year(y as int),
            secs == total * 86400 + rem,
            rem < 86400,
        decreases 12 - m,
    {
        assert(days_before_month(y as int, (m + 1) as nat) == days_before_month(y as int, m as nat) + days_in_month(y as int, m as int));
        days = days - month_length(y, m) as u64;
        m = m + 1;
    }
    assert(days_before_month(y as int, 1) == 0);
    let dt = DateTime {
        year: y,
        month: m,
        day: (days + 1) as u8,
        hour: (rem / 3600) as u8,
        minute: (rem % 3600 / 60) as u8,
        second: (rem % 60) as u8,
    };
    assert(rem == (rem / 3600) * 3600 + (rem % 3600 / 60) * 60 + rem % 60);
    Some(dt)
}

} // verus!
