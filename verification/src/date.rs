//! Calendar dates and weekdays.
//!
//! A `Date` is a count of days from an internal epoch (March 1 of year 0 in
//! the proleptic Gregorian calendar), so ordering is plain integer ordering
//! and the weekday is the count taken modulo 7. `Date::from_ymd` maps a civil
//! year/month/day to that count.

use vstd::prelude::*;
use vstd::arithmetic::div_mod::lemma_add_mod_noop;

verus! {

/// A day of the week.
#[derive(Debug, Clone, Copy, PartialEq, Eq, Structural)]
pub enum Weekday {
    /// Monday.
    Mon,
    /// Tuesday.
    Tue,
    /// Wednesday.
    Wed,
    /// Thursday.
    Thu,
    /// Friday.
    Fri,
    /// Saturday.
    Sat,
    /// Sunday.
    Sun,
}

impl Weekday {
    /// The weekday's position in the week, counted from Monday.
    pub open spec fn spec_num(self) -> u64 {
        match self {
            Weekday::Mon => 0,
            Weekday::Tue => 1,
            Weekday::Wed => 2,
            Weekday::Thu => 3,
            Weekday::Fri => 4,
            Weekday::Sat => 5,
            Weekday::Sun => 6,
        }
    }

    /// Returns the weekday's position in the week, counted from Monday.
    pub fn num_from_monday(&self) -> (r: u64)
        ensures
            r == self.spec_num(),
    {
        match self {
            Weekday::Mon => 0,
            Weekday::Tue => 1,
            Weekday::Wed => 2,
            Weekday::Thu => 3,
            Weekday::Fri => 4,
            Weekday::Sat => 5,
            Weekday::Sun => 6,
        }
    }

    /// Returns the weekday at the given position in the week, counted from
    /// Monday.
    pub fn from_num(n: u64) -> (r: Weekday)
        requires
            n < 7,
        ensures
            r.spec_num() == n,
    {
        if n == 0 {
            Weekday::Mon
        } else if n == 1 {
            Weekday::Tue
        } else if n == 2 {
            Weekday::Wed
        } else if n == 3 {
            Weekday::Thu
        } else if n == 4 {
            Weekday::Fri
        } else if n == 5 {
            Weekday::Sat
        } else {
            Weekday::Sun
        }
    }
}

/// True for years with a February 29, by the Gregorian rule.
pub open spec fn is_leap_year(y: int) -> bool {
    y % 4 == 0 && (y % 100 != 0 || y % 400 == 0)
}

/// The number of days in the given month of the given year.
pub open spec fn days_in_month(y: int, m: int) -> int {
    if m == 2 {
        if is_leap_year(y) {
            29
        } else {
            28
        }
    } else if m == 4 || m == 6 || m == 9 || m == 11 {
        30
    } else {
        31
    }
}

/// A civil date that `Date::from_ymd` accepts.
pub open spec fn valid_ymd(y: int, m: int, d: int) -> bool {
    &&& 1 <= y <= 9999
    &&& 1 <= m <= 12
    &&& 1 <= d <= days_in_month(y, m)
}

/// The count of days from the internal epoch (March 1 of year 0) to the given
/// civil date, for the proleptic Gregorian calendar.
pub open spec fn days_of_ymd(y: int, m: int, d: int) -> int {
    let yp = if m <= 2 {
        y - 1
    } else {
        y
    };
    let era = yp / 400;
    let yoe = yp % 400;
    let mp = if m > 2 {
        m - 3
    } else {
        m + 9
    };
    let doy = (153 * mp + 2) / 5 + d - 1;
    let doe = yoe * 365 + yoe / 4 - yoe / 100 + doy;
    era * 146097 + doe
}

/// A calendar date, stored as its count of days from the internal epoch.
#[derive(Debug, Clone, Copy, PartialEq, Eq, Structural, Hash)]
pub struct Date {
    /// Days elapsed since March 1 of year 0 (proleptic Gregorian).
    pub days: u64,
}

impl Date {
    /// The weekday's position in the week (from Monday) of this date.
    pub open spec fn spec_weekday_num(self) -> int {
        (self.days + 2) % 7
    }

    /// The weekday of this date.
    pub open spec fn spec_weekday(self) -> Weekday {
        let n = (self.days + 2) % 7;
        if n == 0 {
            Weekday::Mon
        } else if n == 1 {
            Weekday::Tue
        } else if n == 2 {
            Weekday::Wed
        } else if n == 3 {
            Weekday::Thu
        } else if n == 4 {
            Weekday::Fri
        } else if n == 5 {
            Weekday::Sat
        } else {
            Weekday::Sun
        }
    }

    /// Builds the date with the given civil year, month and day.
    pub fn from_ymd(y: u64, m: u64, d: u64) -> (r: Date)
        requires
            valid_ymd(y as int, m as int, d as int),
        ensures
            r.days == days_of_ymd(y as int, m as int, d as int),
            r.days <= 3652364,
    {
        let yp: u64 = if m <= 2 {
            y - 1
        } else {
            y
        };
        let era: u64 = yp / 400;
        let yoe: u64 = yp % 400;
        let mp: u64 = if m > 2 {
            m - 3
        } else {
            m + 9
        };
        let doy: u64 = (153 * mp + 2) / 5 + d - 1;
        let doe: u64 = yoe * 365 + yoe / 4 - yoe / 100 + doy;
        Date { days: era * 146097 + doe }
    }

    /// The next day.
    pub fn succ(&self) -> (r: Date)
        requires
            self.days < u64::MAX,
        ensures
            r.days == self.days + 1,
    {
        Date { days: self.days + 1 }
    }

    /// The previous day.
    pub fn pred(&self) -> (r: Date)
        requires
            self.days > 0,
        ensures
            r.days == self.days - 1,
    {
        Date { days: self.days - 1 }
    }

    /// Returns the weekday of this date.
    pub fn weekday(&self) -> (r: Weekday)
        ensures
            r == self.spec_weekday(),
            r.spec_num() == self.spec_weekday_num(),
    {
        let n: u64 = (self.days % 7 + 2) % 7;
        proof {
            lemma_add_mod_noop(self.days as int, 2, 7);
        }
        Weekday::from_num(n)
    }
}

/// Returns the date of the next occurrence of the given weekday, counted from
/// `today`; `today` itself when it already falls on that weekday.
pub fn weekday_to_date(weekday: Weekday, today: Date) -> (r: Date)
    requires
        today.days + 6 <= u64::MAX,
    ensures
        r.spec_weekday_num() == weekday.spec_num(),
        today.days <= r.days < today.days + 7,
{
    let w: u64 = weekday.num_from_monday();
    let t: u64 = (today.days % 7 + 2) % 7;
    proof {
        lemma_add_mod_noop(today.days as int, 2, 7);
    }
    let delta: u64 = (w + 7 - t) % 7;
    let r = Date { days: today.days + delta };
    proof {
        lemma_add_mod_noop(today.days as int + 2, delta as int, 7);
        lemma_add_mod_noop(w as int + 7 - t as int, t as int, 7);
    }
    r
}

/// Relies on chrono's `Local::now` and `NaiveDate`: the current civil date in
/// the local time zone, read from the system clock. chrono yields a valid
/// civil date; nothing else can be promised of the clock.
#[verifier::external_body]
fn clock_today_ymd() -> (r: (i64, u64, u64))
    ensures
        1 <= r.1 <= 12,
        1 <= r.2 <= days_in_month(r.0 as int, r.1 as int),
{
    let d = chrono::Local::now().date_naive();
    (chrono::Datelike::year(&d) as i64, chrono::Datelike::month(&d) as u64, chrono::Datelike::day(&d) as u64)
}

/// Returns the current date according to the system clock, clamped to the
/// years this crate models (1 through 9999).
pub fn today() -> (r: Date)
    ensures
        r.days <= 3652364,
{
    let (y, m, d) = clock_today_ymd();
    if y < 1 {
        Date::from_ymd(1, 1, 1)
    } else if y > 9999 {
        Date::from_ymd(9999, 12, 31)
    } else {
        Date::from_ymd(y as u64, m, d)
    }
}

} // verus!
