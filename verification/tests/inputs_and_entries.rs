use forecaster::default_window;
use forecaster::fiscal_year_first_date;
use forecaster::fiscal_year_period;
use forecaster::occurrence_day;
use forecaster::parse_day;
use forecaster::parse_timestamp_day;
use forecaster::read_history;
use forecaster::symmetric_offsets;
use forecaster::CalendarDay;
use forecaster::CalendarEvent;
use forecaster::EventItem;
use forecaster::EventItemPeriod;
use forecaster::ForecastError;
use forecaster::SamplingWindow;

fn day(year: i32, month: u32, day: u32) -> CalendarDay {
    CalendarDay::from_ymd(year, month, day).unwrap()
}

fn lines(texts: &[&str]) -> Vec<String> {
    texts.iter().map(|t| t.to_string()).collect()
}

fn period(date_time: Option<&str>, date: Option<&str>) -> EventItemPeriod {
    EventItemPeriod { date_time: date_time.map(String::from), date: date.map(String::from) }
}

#[test]
fn offsets_lie_to_both_sides_of_the_pivot() {
    assert_eq!(symmetric_offsets(7), Ok(vec![-3, -2, -1, 0, 1, 2, 3]));
    assert_eq!(symmetric_offsets(1), Ok(vec![0]));
    assert_eq!(symmetric_offsets(3), Ok(vec![-1, 0, 1]));
}

#[test]
fn an_even_or_empty_number_of_candidates_is_an_invalid_range() {
    assert_eq!(symmetric_offsets(0), Err(ForecastError::InvalidRange));
    assert_eq!(symmetric_offsets(4), Err(ForecastError::InvalidRange));
    assert_eq!(symmetric_offsets(-3), Err(ForecastError::InvalidRange));
    assert_eq!(symmetric_offsets(i64::MIN), Err(ForecastError::InvalidRange));
}

#[test]
fn the_fiscal_year_starts_on_the_first_of_april() {
    assert_eq!(fiscal_year_first_date(day(2021, 2, 10)), Some(day(2020, 4, 1)));
    assert_eq!(fiscal_year_first_date(day(2021, 3, 31)), Some(day(2020, 4, 1)));
    assert_eq!(fiscal_year_first_date(day(2021, 4, 1)), Some(day(2021, 4, 1)));
    assert_eq!(fiscal_year_first_date(day(2021, 12, 31)), Some(day(2021, 4, 1)));
    assert_eq!(fiscal_year_first_date(day(2022, 1, 1)), Some(day(2021, 4, 1)));
    assert_eq!(fiscal_year_first_date(day(1, 4, 1)), Some(day(1, 4, 1)));
    assert_eq!(fiscal_year_first_date(day(1, 3, 31)), None);
}

#[test]
fn a_fiscal_year_is_a_period_from_april_to_april() {
    assert_eq!(fiscal_year_period(2022), Some((day(2022, 4, 1), day(2023, 4, 1))));
    assert_eq!(fiscal_year_period(1), Some((day(1, 4, 1), day(2, 4, 1))));
    assert_eq!(fiscal_year_period(9999), None);
    assert_eq!(fiscal_year_period(0), None);
    assert_eq!(fiscal_year_period(i32::MAX), None);
    assert_eq!(fiscal_year_period(i32::MIN), None);
}

#[test]
fn the_default_window_runs_from_the_fiscal_year_to_the_last_occurrence() {
    let history = vec![day(2021, 2, 10), day(2021, 7, 3), day(2022, 1, 8)];
    assert_eq!(
        default_window(&history),
        Some(SamplingWindow { first: day(2020, 4, 1), last: day(2022, 1, 8) })
    );
    assert_eq!(
        default_window(&vec![day(2021, 7, 3)]),
        Some(SamplingWindow { first: day(2021, 4, 1), last: day(2021, 7, 3) })
    );
    assert_eq!(default_window(&vec![]), None);
    assert_eq!(default_window(&vec![day(1, 1, 5)]), None);
}

#[test]
fn dates_are_read_in_year_month_day_form() {
    assert_eq!(parse_day("2021-04-03"), Some(day(2021, 4, 3)));
    assert_eq!(parse_day("2021-4-3"), Some(day(2021, 4, 3)));
    assert_eq!(parse_day("0001-01-01"), Some(day(1, 1, 1)));
    assert_eq!(parse_day("9999-12-31"), Some(day(9999, 12, 31)));
    assert_eq!(parse_day("2021/04/03"), None);
    assert_eq!(parse_day("2021-02-30"), None);
    assert_eq!(parse_day("2021-04-03 "), None);
    assert_eq!(parse_day("0000-12-31"), None);
    assert_eq!(parse_day("+10000-01-01"), None);
    assert_eq!(parse_day("EOF"), None);
    assert_eq!(parse_day(""), None);
}

#[test]
fn timestamps_give_their_day_in_universal_time() {
    assert_eq!(parse_timestamp_day("2021-04-03T10:00:00+09:00"), Some(day(2021, 4, 3)));
    assert_eq!(parse_timestamp_day("2021-04-03T05:00:00+09:00"), Some(day(2021, 4, 2)));
    assert_eq!(parse_timestamp_day("2021-04-03T23:30:00-01:00"), Some(day(2021, 4, 4)));
    assert_eq!(parse_timestamp_day("2021-04-03T00:00:00Z"), Some(day(2021, 4, 3)));
    assert_eq!(parse_timestamp_day("2021-04-03"), None);
    assert_eq!(parse_timestamp_day("later"), None);
}

#[test]
fn a_history_is_read_up_to_the_end_line() {
    assert_eq!(
        read_history(&lines(&["2021-04-03", "2021-07-03", "EOF", "2021-10-02", "nothing"])),
        Some(vec![day(2021, 4, 3), day(2021, 7, 3)])
    );
    assert_eq!(
        read_history(&lines(&["2021-04-03", "2021-07-03"])),
        Some(vec![day(2021, 4, 3), day(2021, 7, 3)])
    );
    assert_eq!(read_history(&lines(&["EOF"])), Some(vec![]));
    assert_eq!(read_history(&lines(&[])), Some(vec![]));
}

#[test]
fn a_line_that_is_no_date_spoils_the_history() {
    assert_eq!(read_history(&lines(&["2021-04-03", "soon", "EOF"])), None);
    assert_eq!(read_history(&lines(&["2021-04-03", "eof"])), None);
    assert_eq!(read_history(&lines(&["2021-04-03", " EOF"])), None);
    assert_eq!(read_history(&lines(&[""])), None);
}

#[test]
fn an_entry_occurs_on_the_day_of_its_start() {
    assert_eq!(period(None, Some("2021-04-03")).day(), Some(day(2021, 4, 3)));
    assert_eq!(period(Some("2021-04-03T05:00:00+09:00"), None).day(), Some(day(2021, 4, 2)));
    let entry = EventItem {
        summary: String::from("review"),
        start: period(None, Some("2021-07-03")),
        end: period(None, Some("2021-07-04")),
    };
    assert_eq!(entry.occurrence_day(), Some(day(2021, 7, 3)));
    assert_eq!(occurrence_day(&Some(period(None, Some("2021-07-03")))), Some(day(2021, 7, 3)));
}

#[test]
fn the_timestamp_of_a_start_decides_before_its_date() {
    let both = period(Some("2021-04-03T10:00:00Z"), Some("2021-05-05"));
    assert_eq!(both.day(), Some(day(2021, 4, 3)));
    let spoiled = period(Some("not a timestamp"), Some("2021-05-05"));
    assert_eq!(spoiled.day(), None);
    assert_eq!(period(None, Some("not a date")).day(), None);
    assert_eq!(period(None, None).day(), None);
    assert_eq!(occurrence_day(&Some(period(None, None))), None);
}

#[test]
fn an_entry_without_a_start_occurs_on_the_first_day_of_2000() {
    assert_eq!(occurrence_day(&None), Some(day(2000, 1, 1)));
}

#[test]
fn the_entries_of_a_calendar_give_a_history() {
    let listed = CalendarEvent {
        items: vec![
            Some(period(None, Some("2021-04-03"))),
            None,
            Some(period(Some("2021-07-03T09:00:00+09:00"), None)),
        ],
    };
    assert_eq!(
        listed.occurrence_days(),
        Some(vec![day(2021, 4, 3), day(2000, 1, 1), day(2021, 7, 3)])
    );
    assert_eq!(CalendarEvent { items: vec![] }.occurrence_days(), Some(vec![]));
    let spoiled = CalendarEvent {
        items: vec![Some(period(None, Some("2021-04-03"))), Some(period(None, None))],
    };
    assert_eq!(spoiled.occurrence_days(), None);
}

#[test]
fn errors_have_messages() {
    assert_eq!(ForecastError::InvalidRange.message(), "invalid range");
    assert_eq!(ForecastError::InsufficientHistory.message(), "insufficient history");
    assert_eq!(ForecastError::DegenerateModel.message(), "degenerate model");
}
