//! Calendar entries as a calendar service reports them, and the day on which
//! an entry counts as an occurrence.
//!
//! Dates arrive as text. `chrono` parses them; what it makes of a text has a
//! name that the contracts speak of.

use crate::calendar::supported_or_none;
use crate::calendar::CalendarDay;
use chrono::DateTime;
use chrono::Datelike;
use chrono::NaiveDate;
use chrono::ParseError;
use chrono::Utc;
use vstd::prelude::*;

verus! {

/// The format of a date without a time of day: year, month and day, with
/// hyphens between them.
pub const DATE_FORMAT: &'static str = "%Y-%m-%d";

/// The error of `chrono`'s parsers. Nothing is read from it.
#[verifier::external_type_specification]
#[verifier::external_body]
pub struct ExParseError(ParseError);

/// The day number of the date that `chrono` reads from `text` under the
/// format `format`, or `None` where it reads none.
pub uninterp spec fn parsed_date(text: Seq<char>, format: Seq<char>) -> Option<int>;

/// The day number of the date, in universal time, of the timestamp that
/// `chrono` reads from `text`, or `None` where it reads none.
pub uninterp spec fn parsed_timestamp_day(text: Seq<char>) -> Option<int>;

/// Trusted: `chrono::NaiveDate::parse_from_str`, followed by
/// `num_days_from_ce` on the date it read. The result is what `parsed_date`
/// names; nothing more is claimed of it, and nothing of formats other than
/// `DATE_FORMAT`.
#[verifier::external_body]
fn chrono_parse_date(text: &str, format: &str) -> (r: Result<i32, ParseError>)
    requires
        format@ == DATE_FORMAT@,
    ensures
        match r {
            Ok(n) => parsed_date(text@, format@) == Some(n as int),
            Err(_) => parsed_date(text@, format@) == None::<int>,
        },
{
    match NaiveDate::parse_from_str(text, format) {
        Ok(date) => Ok(date.num_days_from_ce()),
        Err(e) => Err(e),
    }
}

/// Trusted: `str::parse` to a `chrono::DateTime<Utc>`, followed by
/// `num_days_from_ce` on the date of its `naive_utc`. The result is what
/// `parsed_timestamp_day` names; nothing more is claimed of it.
#[verifier::external_body]
fn chrono_parse_timestamp_day(text: &str) -> (r: Result<i32, ParseError>)
    ensures
        match r {
            Ok(n) => parsed_timestamp_day(text@) == Some(n as int),
            Err(_) => parsed_timestamp_day(text@) == None::<int>,
        },
{
    match text.parse::<DateTime<Utc>>() {
        Ok(moment) => Ok(moment.naive_utc().date().num_days_from_ce()),
        Err(e) => Err(e),
    }
}

/// The day that the text `text` gives in `DATE_FORMAT`, if it gives a
/// supported one.
pub fn parse_day(text: &str) -> (r: Option<CalendarDay>)
    ensures
        match r {
            Some(day) => supported_or_none(parsed_date(text@, DATE_FORMAT@)) == Some(day@),
            None => supported_or_none(parsed_date(text@, DATE_FORMAT@)) == None::<int>,
        },
{
    match chrono_parse_date(text, DATE_FORMAT) {
        Ok(n) => CalendarDay::from_day_number(n),
        Err(_) => None,
    }
}

/// The day, in universal time, of the timestamp that the text `text` gives,
/// if it gives a supported one.
pub fn parse_timestamp_day(text: &str) -> (r: Option<CalendarDay>)
    ensures
        match r {
            Some(day) => supported_or_none(parsed_timestamp_day(text@)) == Some(day@),
            None => supported_or_none(parsed_timestamp_day(text@)) == None::<int>,
        },
{
    match chrono_parse_timestamp_day(text) {
        Ok(n) => CalendarDay::from_day_number(n),
        Err(_) => None,
    }
}

/// Start or end of a calendar entry.
#[derive(Debug)]
pub struct EventItemPeriod {
    /// The timestamp; unused for an all-day entry.
    pub date_time: Option<String>,
    /// The date; unused for an entry with a time of day.
    pub date: Option<String>,
}

/// One calendar entry.
#[derive(Debug)]
pub struct EventItem {
    pub summary: String,
    pub start: EventItemPeriod,
    pub end: EventItemPeriod,
}

/// The first start of an instance of a recurring entry that was moved.
#[derive(Debug)]
pub struct OriginalStartTime {
    pub date_time: String,
}

/// The day number of 2000-01-01, the day on which an entry without a start
/// counts as an occurrence.
pub const UNDATED_DAY_NUMBER: i32 = 730_120;

impl EventItemPeriod {
    /// What `day` returns, as a day number.
    pub open spec fn day_of(self) -> Option<int> {
        match self.date_time {
            Some(text) => supported_or_none(parsed_timestamp_day(text@)),
            None => match self.date {
                Some(text) => supported_or_none(parsed_date(text@, DATE_FORMAT@)),
                None => None,
            },
        }
    }

    /// The day of this start or end: that of the timestamp where there is one,
    /// else the date. `None` where the text that decides gives no supported
    /// day, or where there is neither.
    pub fn day(&self) -> (r: Option<CalendarDay>)
        ensures
            match r {
                Some(day) => self.day_of() == Some(day@),
                None => self.day_of() == None::<int>,
            },
    {
        match &self.date_time {
            Some(text) => parse_timestamp_day(text.as_str()),
            None => match &self.date {
                Some(text) => parse_day(text.as_str()),
                None => None,
            },
        }
    }
}

/// The day on which an entry that starts at `start` counts as an occurrence:
/// the day of its start, or 2000-01-01 for an entry without a start. `None`
/// where the start gives no supported day.
pub fn occurrence_day(start: &Option<EventItemPeriod>) -> (r: Option<CalendarDay>)
    ensures
        match r {
            Some(day) => occurrence_day_of(*start) == Some(day@),
            None => occurrence_day_of(*start) == None::<int>,
        },
{
    match start {
        Some(period) => period.day(),
        None => CalendarDay::from_day_number(UNDATED_DAY_NUMBER),
    }
}

/// What `occurrence_day` returns for `start`, as a day number.
pub open spec fn occurrence_day_of(start: Option<EventItemPeriod>) -> Option<int> {
    match start {
        Some(period) => period.day_of(),
        None => Some(UNDATED_DAY_NUMBER as int),
    }
}

/// The entries of a calendar as the service lists them: the start of each
/// entry, in the order of the list, and `None` for an entry without a start.
#[derive(Debug)]
pub struct CalendarEvent {
    pub items: Vec<Option<EventItemPeriod>>,
}

impl CalendarEvent {
    /// The days on which the entries count as occurrences, in the order of
    /// the entries. `None` where one of the starts gives no supported day.
    pub fn occurrence_days(&self) -> (r: Option<Vec<CalendarDay>>)
        ensures
            match r {
                Some(days) => days.len() == self.items.len() && forall|i: int|
                    0 <= i < self.items.len() ==> occurrence_day_of(#[trigger] self.items[i])
                        == Some(days[i]@),
                None => exists|i: int|
                    0 <= i < self.items.len() && occurrence_day_of(#[trigger] self.items[i])
                        == None::<int>,
            },
    {
        let mut days: Vec<CalendarDay> = Vec::new();
        let mut i: usize = 0;
        while i < self.items.len()
            invariant
                i <= self.items.len(),
                days.len() == i,
                forall|j: int|
                    0 <= j < i ==> occurrence_day_of(#[trigger] self.items[j]) == Some(days[j]@),
            decreases self.items.len() - i,
        {
            match occurrence_day(&self.items[i]) {
                Some(day) => {
                    days.push(day);
                },
                None => {
                    assert(occurrence_day_of(self.items[i as int]) == None::<int>);
                    return None;
                },
            }
            i += 1;
        }
        Some(days)
    }
}

impl EventItem {
    /// The day on which this entry counts as an occurrence: the day of its
    /// start.
    pub fn occurrence_day(&self) -> (r: Option<CalendarDay>)
        ensures
            match r {
                Some(day) => self.start.day_of() == Some(day@),
                None => self.start.day_of() == None::<int>,
            },
    {
        self.start.day()
    }
}

} // verus!
