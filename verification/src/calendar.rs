//! Calendar days as day numbers of the proleptic Gregorian calendar.
//!
//! A day is held as the count that `chrono` uses: January 1 of year 1 is day 1.
//! Differences and shifts are integer arithmetic and are verified here. The civil
//! fields of a day (year, month, day of month, weekday) are computed by `chrono`;
//! each of them has a name that the contracts speak of.

use chrono::Datelike;
use chrono::NaiveDate;
use chrono::Weekday;
use vstd::prelude::*;

verus! {

/// Day number of 0001-01-01, the first day that this library handles.
pub const FIRST_DAY_NUMBER: i32 = 1;

/// Day number of 9999-12-31, the last day that this library handles.
pub const LAST_DAY_NUMBER: i32 = 3_652_059;

/// Whether `n` is the number of a day between 0001-01-01 and 9999-12-31.
pub open spec fn supported_day(n: int) -> bool {
    FIRST_DAY_NUMBER <= n <= LAST_DAY_NUMBER
}

/// The day with number `found`, if there is one and it is supported.
pub open spec fn supported_or_none(found: Option<int>) -> Option<int> {
    match found {
        Some(n) => if supported_day(n) {
            Some(n)
        } else {
            None
        },
        None => None,
    }
}

/// The day number that `chrono` gives to the civil date `year`-`month`-`day`,
/// or `None` where `chrono` knows no such date.
pub uninterp spec fn civil_day_number(year: int, month: int, day: int) -> Option<int>;

/// The year in which day number `day` falls.
pub uninterp spec fn year_of(day: int) -> int;

/// The month (1 to 12) in which day number `day` falls.
pub uninterp spec fn month_of(day: int) -> int;

/// The day of the month (1 to 31) of day number `day`.
pub uninterp spec fn day_of_month(day: int) -> int;

/// The weekday of day number `day`, counted from Monday = 0 to Sunday = 6.
pub uninterp spec fn weekday_of(day: int) -> int;

/// Trusted: `chrono::NaiveDate::from_ymd_opt`, followed by `num_days_from_ce` on
/// the date it made. The result is what `civil_day_number` names; nothing more
/// is claimed of it.
#[verifier::external_body]
fn chrono_day_number(year: i32, month: u32, day: u32) -> (r: Option<i32>)
    ensures
        match r {
            Some(n) => civil_day_number(year as int, month as int, day as int) == Some(n as int),
            None => civil_day_number(year as int, month as int, day as int) == None::<int>,
        },
{
    match NaiveDate::from_ymd_opt(year, month, day) {
        Some(date) => Some(date.num_days_from_ce()),
        None => None,
    }
}

/// Trusted: `chrono::Datelike::year` of the date that
/// `NaiveDate::from_num_days_from_ce_opt` makes of `days`. Every supported day
/// number is in `chrono`'s range, so that date exists; day 1 is January 1 of
/// year 1, so no supported day lies before that year.
#[verifier::external_body]
fn chrono_year(days: i32) -> (r: i32)
    requires
        supported_day(days as int),
    ensures
        r as int == year_of(days as int),
        r >= 1,
{
    NaiveDate::from_num_days_from_ce_opt(days).unwrap().year()
}

/// Trusted: `chrono::Datelike::month` of the date with day number `days`.
/// `chrono` documents the result as 1 to 12.
#[verifier::external_body]
fn chrono_month(days: i32) -> (r: u32)
    requires
        supported_day(days as int),
    ensures
        r as int == month_of(days as int),
        1 <= r <= 12,
{
    NaiveDate::from_num_days_from_ce_opt(days).unwrap().month()
}

/// Trusted: `chrono::Datelike::day` of the date with day number `days`.
/// `chrono` documents the result as 1 to 31.
#[verifier::external_body]
fn chrono_day(days: i32) -> (r: u32)
    requires
        supported_day(days as int),
    ensures
        r as int == day_of_month(days as int),
        1 <= r <= 31,
{
    NaiveDate::from_num_days_from_ce_opt(days).unwrap().day()
}

/// Trusted: `chrono::Datelike::weekday` of the date with day number `days`,
/// with `chrono::Weekday`'s seven variants numbered from Monday = 0.
#[verifier::external_body]
fn chrono_weekday(days: i32) -> (r: u8)
    requires
        supported_day(days as int),
    ensures
        r as int == weekday_of(days as int),
        r < 7,
{
    match NaiveDate::from_num_days_from_ce_opt(days).unwrap().weekday() {
        Weekday::Mon => 0,
        Weekday::Tue => 1,
        Weekday::Wed => 2,
        Weekday::Thu => 3,
        Weekday::Fri => 4,
        Weekday::Sat => 5,
        Weekday::Sun => 6,
    }
}

/// A single date between 0001-01-01 and 9999-12-31.
#[derive(Clone, Copy, Debug, PartialEq, Eq, Structural, PartialOrd, Ord, Hash)]
pub struct CalendarDay {
    days: i32,
}

impl View for CalendarDay {
    type V = int;

    /// The day number: 0001-01-01 is day 1.
    closed spec fn view(&self) -> int {
        self.days as int
    }
}

impl CalendarDay {
    #[verifier::type_invariant]
    spec fn in_supported_range(self) -> bool {
        supported_day(self.days as int)
    }

    /// The day with number `n`, if `n` is a supported day number.
    pub fn from_day_number(n: i32) -> (r: Option<CalendarDay>)
        ensures
            r.is_some() == supported_day(n as int),
            r matches Some(d) ==> d@ == n,
    {
        if FIRST_DAY_NUMBER <= n && n <= LAST_DAY_NUMBER {
            Some(CalendarDay { days: n })
        } else {
            None
        }
    }

    /// The civil date `year`-`month`-`day`, if it exists and is supported.
    pub fn from_ymd(year: i32, month: u32, day: u32) -> (r: Option<CalendarDay>)
        ensures
            match r {
                Some(d) => supported_or_none(
                    civil_day_number(year as int, month as int, day as int),
                ) == Some(d@),
                None => supported_or_none(
                    civil_day_number(year as int, month as int, day as int),
                ) == None::<int>,
            },
    {
        match chrono_day_number(year, month, day) {
            Some(n) => CalendarDay::from_day_number(n),
            None => None,
        }
    }

    /// The day number: 0001-01-01 is day 1.
    pub fn day_number(&self) -> (n: i32)
        ensures
            n == self@,
            supported_day(n as int),
    {
        proof {
            use_type_invariant(self);
        }
        self.days
    }

    /// The year of this day, 1 or later.
    pub fn year(&self) -> (r: i32)
        ensures
            r as int == year_of(self@),
            r >= 1,
    {
        chrono_year(self.day_number())
    }

    /// The month of this day, 1 to 12.
    pub fn month(&self) -> (r: u32)
        ensures
            r as int == month_of(self@),
            1 <= r <= 12,
    {
        chrono_month(self.day_number())
    }

    /// The day of the month of this day, 1 to 31.
    pub fn day(&self) -> (r: u32)
        ensures
            r as int == day_of_month(self@),
            1 <= r <= 31,
    {
        chrono_day(self.day_number())
    }

    /// The weekday of this day, counted from Monday = 0 to Sunday = 6.
    pub fn weekday_from_monday(&self) -> (r: u8)
        ensures
            r as int == weekday_of(self@),
            r < 7,
    {
        chrono_weekday(self.day_number())
    }

    /// The number of days from `earlier` to this day; negative where this day
    /// comes first.
    pub fn days_since(&self, earlier: &CalendarDay) -> (r: i64)
        ensures
            r == self@ - earlier@,
            -LAST_DAY_NUMBER < r < LAST_DAY_NUMBER,
    {
        let a: i64 = self.day_number() as i64;
        let b: i64 = earlier.day_number() as i64;
        a - b
    }

    /// This day moved by `offset` days, if that day is supported.
    pub fn plus_days(&self, offset: i64) -> (r: Option<CalendarDay>)
        ensures
            r.is_some() == supported_day(self@ + offset),
            r matches Some(d) ==> d@ == self@ + offset,
    {
        let n: i64 = self.day_number() as i64;
        if offset < FIRST_DAY_NUMBER as i64 - n || offset > LAST_DAY_NUMBER as i64 - n {
            None
        } else {
            let moved: i64 = n + offset;
            CalendarDay::from_day_number(moved as i32)
        }
    }

    /// Whether this day comes strictly before `other`.
    pub fn is_before(&self, other: &CalendarDay) -> (r: bool)
        ensures
            r == (self@ < other@),
    {
        self.day_number() < other.day_number()
    }

    /// Every day number, also that of a day that only a contract speaks of, is
    /// in the range of a 32-bit count.
    pub proof fn lemma_day_number_is_bounded(d: CalendarDay)
        ensures
            i32::MIN <= d@ <= i32::MAX,
    {
    }

    /// Two days with the same day number are the same day.
    pub proof fn lemma_view_is_injective(a: CalendarDay, b: CalendarDay)
        requires
            a@ == b@,
        ensures
            a == b,
    {
    }
}

/// The day numbers of a sequence of days, in order.
pub open spec fn day_numbers(days: Seq<CalendarDay>) -> Seq<int> {
    days.map_values(|d: CalendarDay| d@)
}

} // verus!
