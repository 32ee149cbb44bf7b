//! Pure calendar arithmetic: the Gregorian leap-year rule, the
//! days-in-month table, the weekday of the first day of a month, and the
//! cell layout of a month view.

use vstd::prelude::*;
use vstd::arithmetic::div_mod::{lemma_fundamental_div_mod, lemma_mod_multiples_vanish};
use chrono::Datelike;
use chrono::Timelike;

verus! {

/// An immutable capture of one point in time: calendar date, weekday and
/// time of day. Taken once per run; all calendar rendering reads it.
///
/// `weekday` counts days since Sunday: 0 is Sunday, 6 is Saturday.
pub struct DateSnapshot {
    pub year: i32,
    pub month: u32,
    pub day: u32,
    pub weekday: u32,
    pub hour: u32,
    pub minute: u32,
    pub second: u32,
}

impl DateSnapshot {
    /// The field bounds of a well-formed capture of a real instant.
    pub open spec fn wf(self) -> bool {
        &&& 1 <= self.month <= 12
        &&& 1 <= self.day <= 31
        &&& self.weekday < 7
        &&& self.hour < 24
        &&& self.minute < 60
        &&& self.second < 60
    }

    /// Seconds elapsed since midnight of the snapshot's day.
    pub open spec fn seconds_of_day_spec(self) -> int {
        self.hour * 3600 + self.minute * 60 + self.second
    }

    pub fn seconds_of_day(&self) -> (t: u32)
        requires
            self.wf(),
        ensures
            t == self.seconds_of_day_spec(),
            t < 86400,
    {
        self.hour * 3600 + self.minute * 60 + self.second
    }

    /// The weekday of day 1 of the snapshot's month, counted from Sunday.
    pub fn first_weekday_of_month(&self) -> (r: u32)
        requires
            self.wf(),
        ensures
            r < 7,
            r == first_weekday_spec(self.weekday as int, self.day as int),
    {
        let shift = (self.day - 1) % 7;
        let r = (self.weekday + 7 - shift) % 7;
        proof {
            let w = self.weekday as int;
            let d = (self.day - 1) as int;
            lemma_fundamental_div_mod(d, 7);
            lemma_mod_multiples_vanish(-(d / 7), w - d % 7, 7);
            lemma_mod_multiples_vanish(1, w - d % 7, 7);
        }
        r
    }

    /// The number of days of the snapshot's month.
    pub fn days_in_current_month(&self) -> (d: u32)
        requires
            self.wf(),
        ensures
            d == days_in_month_spec(self.month as int, is_leap_year_spec(self.year as int)),
    {
        let leap = is_leap_year(self.year);
        days_in_month(self.month, leap)
    }
}

/// The Gregorian leap-year rule: a year is a leap year when it is divisible
/// by 4 and not by 100, or divisible by 400.
pub open spec fn is_leap_year_spec(year: int) -> bool {
    (year % 4 == 0 && year % 100 != 0) || year % 400 == 0
}

/// Leap-year test over the full three-case Gregorian rule.
pub fn is_leap_year(year: i32) -> (r: bool)
    ensures
        r == is_leap_year_spec(year as int),
{
    // Shifting by a multiple of 400 (so also of 4 and of 100) changes no
    // divisibility below, and makes the value non-negative.
    let y: u64 = (year as i64 + 2400000000) as u64;
    proof {
        let yi = year as int;
        lemma_mod_multiples_vanish(600000000, yi, 4);
        lemma_mod_multiples_vanish(24000000, yi, 100);
        lemma_mod_multiples_vanish(6000000, yi, 400);
    }
    (y % 4 == 0 && y % 100 != 0) || y % 400 == 0
}

/// The Gregorian days-in-month table; February goes by the leap flag.
pub open spec fn days_in_month_spec(month: int, leap: bool) -> int {
    if month == 2 {
        if leap {
            29
        } else {
            28
        }
    } else if month == 4 || month == 6 || month == 9 || month == 11 {
        30
    } else {
        31
    }
}

/// Days of the given month, 1 being January.
pub fn days_in_month(month: u32, leap: bool) -> (d: u32)
    requires
        1 <= month <= 12,
    ensures
        d == days_in_month_spec(month as int, leap),
{
    if month == 2 {
        if leap {
            29
        } else {
            28
        }
    } else if month == 4 || month == 6 || month == 9 || month == 11 {
        30
    } else {
        31
    }
}

/// The weekday of day 1 of a month whose day `day` falls on `weekday`,
/// as a residue modulo 7 counted from Sunday.
pub open spec fn first_weekday_spec(weekday: int, day: int) -> int {
    (weekday - (day - 1)) % 7
}

/// The three-letter English name of a weekday counted from Sunday.
pub open spec fn weekday_name_spec(w: int) -> Seq<char> {
    if w == 0 {
        "Sun"@
    } else if w == 1 {
        "Mon"@
    } else if w == 2 {
        "Tue"@
    } else if w == 3 {
        "Wed"@
    } else if w == 4 {
        "Thu"@
    } else if w == 5 {
        "Fri"@
    } else {
        "Sat"@
    }
}

pub fn weekday_name(w: u32) -> (r: &'static str)
    requires
        w < 7,
    ensures
        r@ == weekday_name_spec(w as int),
{
    match w {
        0 => "Sun",
        1 => "Mon",
        2 => "Tue",
        3 => "Wed",
        4 => "Thu",
        5 => "Fri",
        _ => "Sat",
    }
}

/// The header row of the month view: the seven weekday names, each padded
/// to a four-column field.
pub open spec fn week_bar_spec() -> Seq<char> {
    weekday_name_spec(0) + " "@ + weekday_name_spec(1) + " "@ + weekday_name_spec(2) + " "@
        + weekday_name_spec(3) + " "@ + weekday_name_spec(4) + " "@ + weekday_name_spec(5) + " "@
        + weekday_name_spec(6) + " "@
}

pub fn week_bar() -> (r: String)
    ensures
        r@ == week_bar_spec(),
{
    let mut s = String::new();
    let mut w: u32 = 0;
    while w < 7
        invariant
            w <= 7,
            s@ == week_bar_prefix(w as int),
        decreases 7 - w,
    {
        s.append(weekday_name(w));
        s.append(" ");
        w = w + 1;
    }
    proof {
        reveal_with_fuel(week_bar_prefix, 8);
        assert(week_bar_prefix(7) =~= week_bar_spec());
    }
    s
}

/// The first `w` padded weekday names of the header row.
pub open spec fn week_bar_prefix(w: int) -> Seq<char>
    decreases w,
{
    if w <= 0 {
        Seq::<char>::empty()
    } else {
        week_bar_prefix(w - 1) + weekday_name_spec(w - 1) + " "@
    }
}

/// The cells of the month view in reading order: `first_weekday` blanks
/// (written 0), then the day numbers 1 to `days`.
pub fn calendar_cells(first_weekday: u32, days: u32) -> (cells: Vec<u32>)
    requires
        first_weekday < 7,
        1 <= days <= 31,
    ensures
        cells@.len() == first_weekday + days,
        forall|i: int| 0 <= i < first_weekday ==> cells@[i] == 0,
        forall|d: int|
            1 <= d <= days ==> #[trigger] cells@[first_weekday + d - 1] == d,
{
    let mut cells: Vec<u32> = Vec::new();
    let mut i: u32 = 0;
    while i < first_weekday
        invariant
            i <= first_weekday,
            cells@.len() == i,
            forall|k: int| 0 <= k < i ==> cells@[k] == 0,
        decreases first_weekday - i,
    {
        cells.push(0);
        i = i + 1;
    }
    let mut d: u32 = 1;
    while d <= days
        invariant
            1 <= d <= days + 1,
            days <= 31,
            cells@.len() == first_weekday + d - 1,
            forall|k: int| 0 <= k < first_weekday ==> cells@[k] == 0,
            forall|k: int| 1 <= k < d ==> #[trigger] cells@[first_weekday + k - 1] == k,
        decreases days + 1 - d,
    {
        cells.push(d);
        d = d + 1;
    }
    cells
}

/// Relies on `chrono::Local::now` and chrono's `Datelike`, `Timelike` and
/// `Weekday::num_days_from_sunday` accessors: the capture is a valid local
/// calendar instant, so every field lies in its documented range (month
/// 1-12, day 1-31, hour 0-23, minute and second 0-59, weekday 0-6 from
/// Sunday). Nothing more is assumed: the clock may return anything within
/// those ranges.
#[verifier::external_body]
pub fn now_snapshot() -> (snap: DateSnapshot)
    ensures
        snap.wf(),
{
    let now = chrono::Local::now();
    DateSnapshot {
        year: now.year(),
        month: now.month(),
        day: now.day(),
        weekday: now.weekday().num_days_from_sunday(),
        hour: now.hour(),
        minute: now.minute(),
        second: now.second(),
    }
}

} // verus!
