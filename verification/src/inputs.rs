//! What a forecast is set up with: the offsets of the candidates, the sampling
//! window where none is given, the fiscal year as a target period, and the
//! history as a list of dates in text form.

use crate::calendar::civil_day_number;
use crate::calendar::month_of;
use crate::calendar::supported_or_none;
use crate::calendar::year_of;
use crate::calendar::CalendarDay;
use crate::error::ForecastError;
use crate::events::parse_day;
use crate::events::parsed_date;
use crate::events::DATE_FORMAT;
use crate::window::SamplingWindow;
use vstd::prelude::*;

verus! {

/// The number of candidates where none is asked for: three days to either side
/// of the pivot, and the pivot.
pub const DEFAULT_CANDIDATES: i64 = 7;

/// The first month of the fiscal year.
pub const FISCAL_YEAR_START_MONTH: u32 = 4;

/// The offsets of `count` candidates around the pivot, in ascending order:
/// the pivot itself and as many days before it as after it. Fails with
/// `InvalidRange` unless `count` is positive and odd.
pub fn symmetric_offsets(count: i64) -> (r: Result<Vec<i64>, ForecastError>)
    ensures
        match r {
            Ok(offsets) => {
                &&& count > 0 && count % 2 == 1
                &&& offsets.len() == count
                &&& forall|j: int| 0 <= j < count ==> #[trigger] offsets[j] == j - (count - 1) / 2
            },
            Err(e) => e == ForecastError::InvalidRange && !(count > 0 && count % 2 == 1),
        },
{
    if count <= 0 || count % 2 != 1 {
        return Err(ForecastError::InvalidRange);
    }
    let reach: i64 = (count - 1) / 2;
    let mut offsets: Vec<i64> = Vec::new();
    let mut offset: i64 = -reach;
    while offset <= reach
        invariant
            0 <= reach < 0x4000_0000_0000_0000,
            reach == (count - 1) / 2,
            count == 2 * reach + 1,
            -reach <= offset <= reach + 1,
            offsets.len() == offset + reach,
            forall|j: int| 0 <= j < offsets.len() ==> #[trigger] offsets[j] == j - reach,
        decreases reach + 1 - offset,
    {
        offsets.push(offset);
        offset += 1;
    }
    Ok(offsets)
}

/// The year whose April begins the fiscal year of the day with number `day`:
/// the year before for a day in January, February or March.
pub open spec fn fiscal_year_of(day: int) -> int {
    if month_of(day) < FISCAL_YEAR_START_MONTH {
        year_of(day) - 1
    } else {
        year_of(day)
    }
}

/// The first day of the fiscal year in which `date` falls: the last April 1 up
/// to `date`. `None` where that day is not supported.
pub fn fiscal_year_first_date(date: CalendarDay) -> (r: Option<CalendarDay>)
    ensures
        match r {
            Some(first) => supported_or_none(
                civil_day_number(fiscal_year_of(date@), FISCAL_YEAR_START_MONTH as int, 1),
            ) == Some(first@),
            None => supported_or_none(
                civil_day_number(fiscal_year_of(date@), FISCAL_YEAR_START_MONTH as int, 1),
            ) == None::<int>,
        },
{
    let year: i32 = date.year();
    let month: u32 = date.month();
    if month < FISCAL_YEAR_START_MONTH {
        CalendarDay::from_ymd(year - 1, FISCAL_YEAR_START_MONTH, 1)
    } else {
        CalendarDay::from_ymd(year, FISCAL_YEAR_START_MONTH, 1)
    }
}

/// The first day of the fiscal year that begins in `year`, as a day number, if
/// it is supported.
pub open spec fn fiscal_year_start(year: int) -> Option<int> {
    supported_or_none(civil_day_number(year, FISCAL_YEAR_START_MONTH as int, 1))
}

/// The fiscal year that begins in `year` as a target period: from its first
/// day up to, not including, the first day of the next. `None` where one of the
/// two days is not supported.
pub fn fiscal_year_period(year: i32) -> (r: Option<(CalendarDay, CalendarDay)>)
    ensures
        match r {
            Some((start, end)) => fiscal_year_start(year as int) == Some(start@)
                && fiscal_year_start(year + 1) == Some(end@),
            None => year == i32::MAX || fiscal_year_start(year as int) == None::<int>
                || fiscal_year_start(year + 1) == None::<int>,
        },
{
    if year == i32::MAX {
        return None;
    }
    match CalendarDay::from_ymd(year, FISCAL_YEAR_START_MONTH, 1) {
        Some(start) => match CalendarDay::from_ymd(year + 1, FISCAL_YEAR_START_MONTH, 1) {
            Some(end) => Some((start, end)),
            None => None,
        },
        None => None,
    }
}

/// The sampling window to use where none is given: from the first day of the
/// fiscal year of the first occurrence to the last occurrence. `None` for an
/// empty history, and where that first day is not supported.
pub fn default_window(history: &Vec<CalendarDay>) -> (r: Option<SamplingWindow>)
    ensures
        match r {
            Some(window) => history.len() >= 1 && fiscal_year_start(
                fiscal_year_of(history[0]@),
            ) == Some(window.first@) && window.last == history[history.len() - 1],
            None => history.len() == 0 || fiscal_year_start(fiscal_year_of(history[0]@))
                == None::<int>,
        },
{
    if history.len() == 0 {
        return None;
    }
    match fiscal_year_first_date(history[0]) {
        Some(first) => Some(SamplingWindow { first, last: history[history.len() - 1] }),
        None => None,
    }
}

/// The line that ends a list of dates.
pub const END_OF_INPUT: &'static str = "EOF";

/// The texts of `lines`.
pub open spec fn line_texts(lines: Seq<String>) -> Seq<Seq<char>> {
    lines.map_values(|line: String| line@)
}

/// Whether a list of dates in `lines` ends before line `stop`: that line is
/// the first to hold `END_OF_INPUT`, or there is no such line and `stop` is the
/// number of lines.
pub open spec fn is_end_of_input(lines: Seq<Seq<char>>, stop: int) -> bool {
    &&& 0 <= stop <= lines.len()
    &&& stop < lines.len() ==> lines[stop] == END_OF_INPUT@
    &&& forall|j: int| 0 <= j < stop ==> #[trigger] lines[j] != END_OF_INPUT@
}

/// The day that a line gives, as a day number.
pub open spec fn day_of_line(line: Seq<char>) -> Option<int> {
    supported_or_none(parsed_date(line, DATE_FORMAT@))
}

/// The history that `lines` give: one date per line in `DATE_FORMAT`, up to the
/// first line that holds `END_OF_INPUT` or else to the last line. `None` where
/// one of these lines gives no supported day.
pub fn read_history(lines: &Vec<String>) -> (r: Option<Vec<CalendarDay>>)
    ensures
        match r {
            Some(history) => {
                &&& is_end_of_input(line_texts(lines@), history.len() as int)
                &&& forall|i: int|
                    0 <= i < history.len() ==> day_of_line(#[trigger] line_texts(lines@)[i])
                        == Some(history[i]@)
            },
            None => exists|i: int|
                0 <= i < lines.len() && day_of_line(#[trigger] line_texts(lines@)[i])
                    == None::<int> && forall|j: int|
                    0 <= j <= i ==> #[trigger] line_texts(lines@)[j] != END_OF_INPUT@,
        },
{
    let end: String = END_OF_INPUT.to_owned();
    let ghost texts = line_texts(lines@);
    let mut history: Vec<CalendarDay> = Vec::new();
    let mut i: usize = 0;
    while i < lines.len()
        invariant
            i <= lines.len(),
            history.len() == i,
            texts == line_texts(lines@),
            end@ == END_OF_INPUT@,
            forall|j: int| 0 <= j < i ==> #[trigger] texts[j] != END_OF_INPUT@,
            forall|j: int| 0 <= j < i ==> day_of_line(#[trigger] texts[j]) == Some(history[j]@),
        decreases lines.len() - i,
    {
        assert(texts[i as int] == lines[i as int]@);
        if lines[i] == end {
            return Some(history);
        }
        match parse_day(lines[i].as_str()) {
            Some(day) => {
                history.push(day);
            },
            None => {
                return None;
            },
        }
        i += 1;
    }
    Some(history)
}

} // verus!
