//! The holiday lookup that the feature encoder consults.
//!
//! The encoder never decides by itself which days are public holidays: the
//! caller hands it a lookup. The Japanese calendar is answered by `jpholiday`.

use crate::calendar::day_numbers;
use crate::calendar::supported_day;
use crate::calendar::CalendarDay;
use chrono::NaiveDate;
use jpholiday::jpholiday::JPHoliday;
use vstd::prelude::*;

verus! {

/// Whether `jpholiday` counts the day with number `day` as a Japanese public
/// holiday (substitute holidays and bridge days included).
pub uninterp spec fn japanese_public_holiday(day: int) -> bool;

/// Trusted: `jpholiday::jpholiday::JPHoliday::is_holiday` on the date that
/// `chrono::NaiveDate::from_num_days_from_ce_opt` makes of `days`. The answer
/// is a fixed rule of the date alone; it is what `japanese_public_holiday`
/// names.
#[verifier::external_body]
fn jpholiday_is_holiday(days: i32) -> (r: bool)
    requires
        supported_day(days as int),
    ensures
        r == japanese_public_holiday(days as int),
{
    let date = NaiveDate::from_num_days_from_ce_opt(days).unwrap();
    JPHoliday::new().is_holiday(&date)
}

/// Whether `date` is one of `days`.
pub fn contains_day(days: &Vec<CalendarDay>, date: CalendarDay) -> (r: bool)
    ensures
        r == day_numbers(days@).contains(date@),
{
    let target: i32 = date.day_number();
    let mut i: usize = 0;
    while i < days.len()
        invariant
            i <= days.len(),
            target == date@,
            forall|j: int| 0 <= j < i ==> day_numbers(days@)[j] != date@,
        decreases days.len() - i,
    {
        if days[i].day_number() == target {
            assert(day_numbers(days@)[i as int] == date@);
            return true;
        }
        i += 1;
    }
    false
}

/// Which days count as public holidays.
pub enum HolidayLookup {
    /// No day is a public holiday.
    NoHolidays,
    /// The public holidays of Japan.
    Japanese,
    /// Exactly the listed days.
    Listed(Vec<CalendarDay>),
}

impl View for HolidayLookup {
    type V = Set<int>;

    /// The day numbers of the public holidays.
    open spec fn view(&self) -> Set<int> {
        match *self {
            HolidayLookup::NoHolidays => Set::empty(),
            HolidayLookup::Japanese => Set::new(|d: int| japanese_public_holiday(d)),
            HolidayLookup::Listed(days) => Set::new(|d: int| day_numbers(days@).contains(d)),
        }
    }
}

impl HolidayLookup {
    /// Whether `date` is a public holiday.
    pub fn is_holiday(&self, date: CalendarDay) -> (r: bool)
        ensures
            r == self@.contains(date@),
    {
        match self {
            HolidayLookup::NoHolidays => false,
            HolidayLookup::Japanese => jpholiday_is_holiday(date.day_number()),
            HolidayLookup::Listed(days) => contains_day(days, date),
        }
    }
}

} // verus!
