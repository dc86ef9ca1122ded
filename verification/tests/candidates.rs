use forecaster::closest_occurrence_index;
use forecaster::generate_candidates;
use forecaster::CalendarDay;
use forecaster::ForecastError;

fn day(year: i32, month: u32, day: u32) -> CalendarDay {
    CalendarDay::from_ymd(year, month, day).unwrap()
}

fn history() -> Vec<CalendarDay> {
    vec![day(2021, 1, 1), day(2021, 1, 11), day(2021, 1, 31)]
}

fn number(date: CalendarDay) -> i64 {
    date.day_number() as i64
}

#[test]
fn the_strictly_closer_occurrence_is_chosen() {
    assert_eq!(closest_occurrence_index(&history(), number(day(2021, 1, 5))), 0);
    assert_eq!(closest_occurrence_index(&history(), number(day(2021, 1, 7))), 1);
    assert_eq!(closest_occurrence_index(&history(), number(day(2021, 1, 20))), 1);
    assert_eq!(closest_occurrence_index(&history(), number(day(2021, 1, 22))), 2);
}

#[test]
fn halfway_between_two_occurrences_the_later_is_chosen() {
    assert_eq!(closest_occurrence_index(&history(), number(day(2021, 1, 6))), 1);
    assert_eq!(closest_occurrence_index(&history(), number(day(2021, 1, 21))), 2);
}

#[test]
fn a_criterion_on_an_occurrence_chooses_it() {
    assert_eq!(closest_occurrence_index(&history(), number(day(2021, 1, 1))), 0);
    assert_eq!(closest_occurrence_index(&history(), number(day(2021, 1, 11))), 1);
    assert_eq!(closest_occurrence_index(&history(), number(day(2021, 1, 31))), 2);
}

#[test]
fn a_criterion_outside_the_history_chooses_an_end() {
    assert_eq!(closest_occurrence_index(&history(), number(day(2021, 3, 1))), 2);
    assert_eq!(closest_occurrence_index(&history(), number(day(2020, 12, 1))), 0);
    assert_eq!(closest_occurrence_index(&history(), i64::MIN), 0);
    assert_eq!(closest_occurrence_index(&history(), i64::MAX), 2);
    assert_eq!(closest_occurrence_index(&vec![], 5), 0);
    assert_eq!(closest_occurrence_index(&vec![day(2021, 1, 1)], 5), 0);
}

#[test]
fn candidates_lie_around_the_pivot_in_the_order_of_the_offsets() {
    let found = generate_candidates(&history(), &vec![-1, 0, 1], 20).unwrap();
    assert_eq!(found, vec![day(2021, 2, 19), day(2021, 2, 20), day(2021, 2, 21)]);
    let found = generate_candidates(&history(), &vec![3, -3, 0, 0], 20).unwrap();
    assert_eq!(found, vec![day(2021, 2, 23), day(2021, 2, 17), day(2021, 2, 20), day(2021, 2, 20)]);
}

#[test]
fn the_gap_after_the_occurrence_one_period_back_is_carried_over() {
    assert_eq!(generate_candidates(&history(), &vec![0], 30), Ok(vec![day(2021, 2, 10)]));
    assert_eq!(generate_candidates(&history(), &vec![0], 26), Ok(vec![day(2021, 2, 10)]));
    assert_eq!(generate_candidates(&history(), &vec![0], 25), Ok(vec![day(2021, 2, 20)]));
    assert_eq!(generate_candidates(&history(), &vec![0], 365), Ok(vec![day(2021, 2, 10)]));
    assert_eq!(generate_candidates(&history(), &vec![0], usize::MAX), Ok(vec![day(2021, 2, 10)]));
}

#[test]
fn the_last_gap_is_carried_over_where_the_latest_occurrence_is_closest() {
    assert_eq!(generate_candidates(&history(), &vec![0], 1), Ok(vec![day(2021, 2, 20)]));
    assert_eq!(generate_candidates(&history(), &vec![0], 0), Ok(vec![day(2021, 2, 20)]));
    assert_eq!(generate_candidates(&history(), &vec![0], 10), Ok(vec![day(2021, 2, 20)]));
}

#[test]
fn a_gap_of_more_than_a_year_is_cut_to_a_year() {
    let sparse = vec![day(2019, 1, 1), day(2021, 1, 1)];
    assert_eq!(generate_candidates(&sparse, &vec![0], 731), Ok(vec![day(2022, 1, 1)]));
    let yearly = vec![day(2019, 1, 1), day(2020, 1, 1)];
    assert_eq!(generate_candidates(&yearly, &vec![0], 365), Ok(vec![day(2020, 12, 31)]));
    let leap = vec![day(2020, 1, 1), day(2021, 1, 1)];
    assert_eq!(generate_candidates(&leap, &vec![0], 366), Ok(vec![day(2022, 1, 1)]));
}

#[test]
fn two_occurrences_are_enough() {
    let two = vec![day(2021, 1, 1), day(2021, 3, 1)];
    for period in [0, 1, 10, 29, 30, 59, 60, 365, 4000] {
        assert_eq!(
            generate_candidates(&two, &vec![-1, 0, 1], period),
            Ok(vec![day(2021, 4, 28), day(2021, 4, 29), day(2021, 4, 30)])
        );
    }
}

#[test]
fn fewer_than_two_occurrences_are_an_insufficient_history() {
    assert_eq!(
        generate_candidates(&vec![], &vec![0], 30),
        Err(ForecastError::InsufficientHistory)
    );
    assert_eq!(
        generate_candidates(&vec![day(2021, 1, 1)], &vec![0], 30),
        Err(ForecastError::InsufficientHistory)
    );
    assert_eq!(
        generate_candidates(&vec![day(2021, 1, 1)], &vec![], 30),
        Err(ForecastError::InsufficientHistory)
    );
}

#[test]
fn no_offsets_are_an_invalid_range() {
    assert_eq!(generate_candidates(&history(), &vec![], 30), Err(ForecastError::InvalidRange));
}

#[test]
fn a_candidate_outside_the_calendar_is_an_invalid_range() {
    let late = vec![day(9999, 12, 1), day(9999, 12, 31)];
    assert_eq!(generate_candidates(&late, &vec![0], 30), Err(ForecastError::InvalidRange));
    assert_eq!(generate_candidates(&late, &vec![-30], 30), Ok(vec![day(9999, 12, 31)]));
    assert_eq!(generate_candidates(&late, &vec![-30, -29], 30), Err(ForecastError::InvalidRange));
    assert_eq!(
        generate_candidates(&history(), &vec![0, i64::MAX], 30),
        Err(ForecastError::InvalidRange)
    );
    assert_eq!(
        generate_candidates(&history(), &vec![i64::MIN, 0], 30),
        Err(ForecastError::InvalidRange)
    );
}
