//! The categorical features of a calendar day.

use crate::calendar::day_of_month;
use crate::calendar::month_of;
use crate::calendar::weekday_of;
use crate::calendar::CalendarDay;
use crate::holiday::HolidayLookup;
use vstd::prelude::*;

verus! {

/// The kind of day: a weekday, or a public holiday whatever its weekday.
#[derive(Clone, Copy, Debug, PartialEq, Eq, Structural)]
pub enum DayType {
    Monday,
    Tuesday,
    Wednesday,
    Thursday,
    Friday,
    Saturday,
    Sunday,
    Holiday,
}

/// The weekday with number `index`, counted from Monday = 0.
pub open spec fn weekday_type(index: int) -> DayType {
    if index == 0 {
        DayType::Monday
    } else if index == 1 {
        DayType::Tuesday
    } else if index == 2 {
        DayType::Wednesday
    } else if index == 3 {
        DayType::Thursday
    } else if index == 4 {
        DayType::Friday
    } else if index == 5 {
        DayType::Saturday
    } else {
        DayType::Sunday
    }
}

/// The kind of the day with number `day`: a holiday takes priority over the
/// weekday.
pub open spec fn day_type_of(day: int, holidays: Set<int>) -> DayType {
    if holidays.contains(day) {
        DayType::Holiday
    } else {
        weekday_type(weekday_of(day))
    }
}

/// The 1-based index of the 7-day bucket of its month that `day` falls into.
pub open spec fn week_of_month(day: int) -> int {
    (day_of_month(day) - 1) / 7 + 1
}

/// The three categorical labels of a day.
#[derive(Clone, Copy, Debug, PartialEq, Eq, Structural)]
pub struct DayFeatures {
    pub day_type: DayType,
    /// 1 to 5.
    pub week_of_month: u8,
    /// 1 to 12.
    pub month: u8,
}

/// Whether `features` are the features of the day with number `day`.
pub open spec fn is_encoding_of(features: DayFeatures, day: int, holidays: Set<int>) -> bool {
    &&& features.day_type == day_type_of(day, holidays)
    &&& features.week_of_month as int == week_of_month(day)
    &&& features.month as int == month_of(day)
}

impl DayType {
    /// The label of this kind of day.
    pub fn label(&self) -> (r: &'static str)
        ensures
            r@ == match *self {
                DayType::Monday => "Monday"@,
                DayType::Tuesday => "Tuesday"@,
                DayType::Wednesday => "Wednesday"@,
                DayType::Thursday => "Thursday"@,
                DayType::Friday => "Friday"@,
                DayType::Saturday => "Saturday"@,
                DayType::Sunday => "Sunday"@,
                DayType::Holiday => "Holiday"@,
            },
    {
        match self {
            DayType::Monday => "Monday",
            DayType::Tuesday => "Tuesday",
            DayType::Wednesday => "Wednesday",
            DayType::Thursday => "Thursday",
            DayType::Friday => "Friday",
            DayType::Saturday => "Saturday",
            DayType::Sunday => "Sunday",
            DayType::Holiday => "Holiday",
        }
    }

    /// The weekday with number `index`, counted from Monday = 0; numbers past 6
    /// give Sunday.
    pub fn from_weekday_number(index: u8) -> (r: DayType)
        ensures
            r == weekday_type(index as int),
    {
        if index == 0 {
            DayType::Monday
        } else if index == 1 {
            DayType::Tuesday
        } else if index == 2 {
            DayType::Wednesday
        } else if index == 3 {
            DayType::Thursday
        } else if index == 4 {
            DayType::Friday
        } else if index == 5 {
            DayType::Saturday
        } else {
            DayType::Sunday
        }
    }
}

/// The features of `date`, with `holidays` deciding which days are public
/// holidays.
pub fn encode(date: CalendarDay, holidays: &HolidayLookup) -> (features: DayFeatures)
    ensures
        is_encoding_of(features, date@, holidays@),
        1 <= features.week_of_month <= 5,
        1 <= features.month <= 12,
{
    let day_type = if holidays.is_holiday(date) {
        DayType::Holiday
    } else {
        DayType::from_weekday_number(date.weekday_from_monday())
    };
    let day: u32 = date.day();
    let month: u32 = date.month();
    DayFeatures { day_type, week_of_month: ((day - 1) / 7 + 1) as u8, month: month as u8 }
}

/// The features of each of `dates`, in the same order.
pub fn encode_all(dates: &Vec<CalendarDay>, holidays: &HolidayLookup) -> (all: Vec<DayFeatures>)
    ensures
        all.len() == dates.len(),
        forall|i: int| 0 <= i < dates.len() ==> is_encoding_of(#[trigger] all[i], dates[i]@, holidays@),
{
    let mut all: Vec<DayFeatures> = Vec::new();
    let mut i: usize = 0;
    while i < dates.len()
        invariant
            i <= dates.len(),
            all.len() == i,
            forall|j: int| 0 <= j < i ==> is_encoding_of(#[trigger] all[j], dates[j]@, holidays@),
        decreases dates.len() - i,
    {
        all.push(encode(dates[i], holidays));
        i += 1;
    }
    all
}

/// Encoding is a function of the day and the holiday lookup: two encodings of
/// one day under one lookup are equal.
pub proof fn lemma_encoding_is_unique(
    a: DayFeatures,
    b: DayFeatures,
    day: int,
    holidays: Set<int>,
)
    requires
        is_encoding_of(a, day, holidays),
        is_encoding_of(b, day, holidays),
    ensures
        a == b,
{
}

} // verus!
