use forecaster::build_design_matrix;
use forecaster::design_columns;
use forecaster::estimate_period;
use forecaster::forecast;
use forecaster::generate_candidates;
use forecaster::occurrence_series;
use forecaster::symmetric_offsets;
use forecaster::training_set;
use forecaster::CalendarDay;
use forecaster::ColumnLabel;
use forecaster::DayType;
use forecaster::DesignMatrix;
use forecaster::ForecastError;
use forecaster::ForecastUntil;
use forecaster::HolidayLookup;
use forecaster::RegressionModel;
use forecaster::SamplingWindow;
use forecaster::Step;
use nalgebra::DMatrix;
use nalgebra::RowDVector;
use smartcore::linear::linear_regression::LinearRegression;
use smartcore::linear::linear_regression::LinearRegressionParameters;
use smartcore::linear::linear_regression::LinearRegressionSolverName;
use smartcore::linear::ridge_regression::RidgeRegression;
use smartcore::linear::ridge_regression::RidgeRegressionParameters;
use smartcore::linear::ridge_regression::RidgeRegressionSolverName;

fn day(year: i32, month: u32, day: u32) -> CalendarDay {
    CalendarDay::from_ymd(year, month, day).unwrap()
}

fn quarterly() -> Vec<CalendarDay> {
    vec![day(2021, 4, 3), day(2021, 7, 3), day(2021, 10, 2), day(2022, 1, 8)]
}

fn quarterly_window() -> SamplingWindow {
    SamplingWindow { first: day(2021, 4, 1), last: day(2022, 1, 8) }
}

fn fixed_point(value: f64) -> Option<i64> {
    let scaled = (value * 1_000_000_000.0).round();
    if scaled.is_finite() && scaled.abs() < 9.0e18 {
        Some(scaled as i64)
    } else {
        None
    }
}

fn training(matrix: &DesignMatrix, target: &Vec<bool>) -> (DMatrix<f64>, RowDVector<f64>) {
    let rows = matrix.rows.len();
    let columns = matrix.labels.len();
    let x = DMatrix::from_fn(rows, columns, |r, c| if matrix.rows[r][c] { 1.0 } else { 0.0 });
    let y = RowDVector::from_fn(rows, |_, c| if target[c] { 1.0 } else { 0.0 });
    (x, y)
}

fn fit_least_squares(matrix: &DesignMatrix, target: &Vec<bool>) -> Option<RegressionModel> {
    let (x, y) = training(matrix, target);
    let parameters = LinearRegressionParameters { solver: LinearRegressionSolverName::SVD };
    let fitted = LinearRegression::fit(&x, &y, parameters).ok()?;
    let mut coefficients = Vec::new();
    for value in fitted.coefficients().iter() {
        coefficients.push(fixed_point(*value)?);
    }
    Some(RegressionModel { coefficients, intercept: fixed_point(fitted.intercept())? })
}

fn fit_ridge(matrix: &DesignMatrix, target: &Vec<bool>, alpha: f64) -> Option<RegressionModel> {
    let (x, y) = training(matrix, target);
    let parameters = RidgeRegressionParameters {
        solver: RidgeRegressionSolverName::Cholesky,
        alpha,
        normalize: false,
    };
    let fitted = RidgeRegression::fit(&x, &y, parameters).ok()?;
    let mut coefficients = Vec::new();
    for value in fitted.coefficients().iter() {
        coefficients.push(fixed_point(*value)?);
    }
    Some(RegressionModel { coefficients, intercept: fixed_point(fitted.intercept())? })
}

fn saturday_model(window: &SamplingWindow) -> RegressionModel {
    let labels = design_columns(window).unwrap();
    let coefficients = labels
        .iter()
        .map(|label| if *label == ColumnLabel::Day(DayType::Saturday) { 100 } else { 0 })
        .collect();
    RegressionModel { coefficients, intercept: 0 }
}

#[test]
fn a_quarterly_weekend_event_is_forecast_on_the_weekend_a_quarter_on() {
    let history = quarterly();
    let window = quarterly_window();
    let offsets = symmetric_offsets(7).unwrap();
    let holidays = HolidayLookup::Japanese;

    // Lags of 91, 98, 182, 189 and 280 days show; the mean at lag 280 is over
    // three products only and is the greatest.
    assert_eq!(estimate_period(&history, &window), Ok(Some(280)));
    // One period back lies the first occurrence, followed by a gap of 91 days.
    let candidates = generate_candidates(&history, &offsets, 280).unwrap();
    assert_eq!(candidates.len(), 7);
    assert_eq!(candidates[3], day(2022, 4, 9));
    assert_eq!(candidates[3].days_since(&history[3]), 91);
    assert_eq!(candidates[0], day(2022, 4, 6));
    assert_eq!(candidates[6], day(2022, 4, 12));

    let matrix = build_design_matrix(&window, &holidays).unwrap();
    let target = occurrence_series(&history, &window).unwrap();
    assert_eq!(matrix.rows.len(), 283);
    assert_eq!(target.len(), 283);
    assert_eq!(target.iter().filter(|t| **t).count(), 4);
    let model = fit_least_squares(&matrix, &target).unwrap();
    assert_eq!(model.coefficients.len(), matrix.labels.len());

    let next = forecast(&history, &window, &offsets, &holidays, &model).unwrap();
    assert_eq!(next, day(2022, 4, 9));
    assert_eq!(next.weekday_from_monday(), 5);
}

#[test]
fn least_squares_and_ridge_regression_choose_the_same_candidate() {
    let history = quarterly();
    let window = quarterly_window();
    let offsets = symmetric_offsets(7).unwrap();
    let holidays = HolidayLookup::Japanese;
    let matrix = build_design_matrix(&window, &holidays).unwrap();
    let target = occurrence_series(&history, &window).unwrap();
    let plain = fit_least_squares(&matrix, &target).unwrap();
    let ridge = fit_ridge(&matrix, &target, 0.001).unwrap();
    assert_eq!(
        forecast(&history, &window, &offsets, &holidays, &plain),
        forecast(&history, &window, &offsets, &holidays, &ridge)
    );
}

#[test]
fn a_training_set_holds_a_row_and_a_flag_per_day() {
    let holidays = HolidayLookup::Japanese;
    let set = training_set(&quarterly(), &quarterly_window(), &holidays).unwrap();
    assert_eq!(set.matrix.rows.len(), 283);
    assert_eq!(set.target.len(), 283);
    assert_eq!(set.matrix.rows, build_design_matrix(&quarterly_window(), &holidays).unwrap().rows);
    assert_eq!(set.target, occurrence_series(&quarterly(), &quarterly_window()).unwrap());
    assert!(set.target[2] && set.target[93] && set.target[184] && set.target[282]);
    let empty = SamplingWindow { first: day(2022, 1, 8), last: day(2021, 4, 1) };
    assert_eq!(training_set(&quarterly(), &empty, &holidays).err(), Some(ForecastError::InvalidRange));
}

#[test]
fn a_forecast_with_a_given_model() {
    let history = quarterly();
    let window = quarterly_window();
    let holidays = HolidayLookup::NoHolidays;
    let model = saturday_model(&window);
    let week = symmetric_offsets(7).unwrap();
    assert_eq!(forecast(&history, &window, &week, &holidays, &model), Ok(day(2022, 4, 9)));
    let fortnight = symmetric_offsets(15).unwrap();
    assert_eq!(forecast(&history, &window, &fortnight, &holidays, &model), Ok(day(2022, 4, 2)));
    let late = vec![1, 2, 3];
    assert_eq!(forecast(&history, &window, &late, &holidays, &model), Ok(day(2022, 4, 10)));
}

#[test]
fn the_default_period_is_assumed_where_no_cycle_shows() {
    let history = vec![day(2019, 6, 1), day(2020, 12, 1), day(2021, 6, 1)];
    let window = SamplingWindow { first: day(2021, 1, 1), last: day(2021, 6, 30) };
    assert_eq!(estimate_period(&history, &window), Ok(None));
    // One year before the latest occurrence lies 2020-06-01, closer to the
    // second occurrence, which a gap of 182 days follows.
    let model = saturday_model(&window);
    let next = forecast(&history, &window, &vec![0], &HolidayLookup::NoHolidays, &model);
    assert_eq!(next, Ok(day(2021, 11, 30)));
    assert_eq!(generate_candidates(&history, &vec![0], 365), Ok(vec![day(2021, 11, 30)]));
}

#[test]
fn a_forecast_fails_on_an_empty_window() {
    let window = SamplingWindow { first: day(2022, 1, 8), last: day(2021, 4, 1) };
    let model = saturday_model(&quarterly_window());
    let offsets = symmetric_offsets(7).unwrap();
    assert_eq!(
        forecast(&quarterly(), &window, &offsets, &HolidayLookup::Japanese, &model),
        Err(ForecastError::InvalidRange)
    );
    assert_eq!(
        forecast(&vec![], &window, &vec![], &HolidayLookup::Japanese, &model),
        Err(ForecastError::InvalidRange)
    );
}

#[test]
fn a_forecast_fails_on_a_short_history() {
    let window = quarterly_window();
    let model = saturday_model(&window);
    let offsets = symmetric_offsets(7).unwrap();
    assert_eq!(
        forecast(&vec![day(2021, 4, 3)], &window, &offsets, &HolidayLookup::Japanese, &model),
        Err(ForecastError::InsufficientHistory)
    );
    assert_eq!(
        forecast(&vec![], &window, &vec![], &HolidayLookup::Japanese, &model),
        Err(ForecastError::InsufficientHistory)
    );
}

#[test]
fn a_forecast_fails_without_offsets() {
    let window = quarterly_window();
    let model = saturday_model(&window);
    assert_eq!(
        forecast(&quarterly(), &window, &vec![], &HolidayLookup::Japanese, &model),
        Err(ForecastError::InvalidRange)
    );
}

#[test]
fn a_forecast_fails_on_a_model_of_another_window() {
    let window = quarterly_window();
    let other = SamplingWindow { first: day(2021, 4, 1), last: day(2021, 4, 30) };
    let model = saturday_model(&other);
    let offsets = symmetric_offsets(7).unwrap();
    assert_eq!(
        forecast(&quarterly(), &window, &offsets, &HolidayLookup::Japanese, &model),
        Err(ForecastError::DegenerateModel)
    );
}

#[test]
fn a_period_that_ends_before_it_starts_is_an_invalid_range() {
    let course = ForecastUntil::begin(quarterly(), quarterly_window(), day(2022, 4, 1), day(2022, 3, 31));
    assert_eq!(course.err(), Some(ForecastError::InvalidRange));
}

#[test]
fn an_empty_period_emits_nothing() {
    let start = day(2022, 4, 1);
    let mut course = ForecastUntil::begin(quarterly(), quarterly_window(), start, start).unwrap();
    assert!(course.forecasts.is_empty());
    assert!(!course.finished);
    assert_eq!(course.record(day(2022, 2, 1)), Step::Skipped);
    assert_eq!(course.record(day(2022, 3, 31)), Step::Skipped);
    assert!(course.forecasts.is_empty());
    assert_eq!(course.record(day(2022, 4, 1)), Step::Finished);
    assert!(course.forecasts.is_empty());
    assert!(course.finished);

    let mut course = ForecastUntil::begin(quarterly(), quarterly_window(), start, start).unwrap();
    assert_eq!(course.record(day(2022, 7, 1)), Step::Finished);
    assert!(course.forecasts.is_empty());
}

#[test]
fn forecasts_in_the_period_are_emitted_until_one_reaches_its_end() {
    let mut course =
        ForecastUntil::begin(quarterly(), quarterly_window(), day(2022, 4, 1), day(2023, 4, 1))
            .unwrap();
    assert_eq!(course.record(day(2022, 3, 20)), Step::Skipped);
    assert_eq!(course.history.len(), 5);
    assert_eq!(course.history[4], day(2022, 3, 20));
    assert_eq!(course.window, SamplingWindow { first: day(2021, 4, 1), last: day(2022, 3, 20) });
    assert!(course.forecasts.is_empty());

    assert_eq!(course.record(day(2022, 4, 1)), Step::Emitted);
    assert_eq!(course.record(day(2022, 7, 2)), Step::Emitted);
    assert_eq!(course.record(day(2023, 3, 31)), Step::Emitted);
    assert_eq!(course.forecasts, vec![day(2022, 4, 1), day(2022, 7, 2), day(2023, 3, 31)]);
    assert_eq!(course.window.last, day(2023, 3, 31));
    assert!(!course.finished);

    assert_eq!(course.record(day(2023, 4, 1)), Step::Finished);
    assert!(course.finished);
    assert_eq!(course.history.len(), 9);
    assert_eq!(course.forecasts.len(), 3);

    assert_eq!(course.record(day(2022, 5, 5)), Step::Finished);
    assert_eq!(course.history.len(), 9);
    assert_eq!(course.forecasts.len(), 3);
    assert_eq!(course.window.last, day(2023, 4, 1));
}

#[test]
fn a_fiscal_year_is_forecast_step_by_step() {
    let holidays = HolidayLookup::Japanese;
    let offsets = symmetric_offsets(7).unwrap();
    let mut course =
        ForecastUntil::begin(quarterly(), quarterly_window(), day(2022, 4, 1), day(2023, 4, 1))
            .unwrap();
    let mut steps = 0;
    while !course.finished && steps < 20 {
        let matrix = build_design_matrix(&course.window, &holidays).unwrap();
        let target = occurrence_series(&course.history, &course.window).unwrap();
        let model = fit_least_squares(&matrix, &target).unwrap();
        let next = forecast(&course.history, &course.window, &offsets, &holidays, &model).unwrap();
        assert!(course.history[course.history.len() - 1].is_before(&next));
        course.record(next);
        steps += 1;
    }
    assert!(course.finished);
    assert!(!course.forecasts.is_empty());
    assert_eq!(course.forecasts[0], day(2022, 4, 9));
    for found in course.forecasts.iter() {
        assert!(!found.is_before(&day(2022, 4, 1)));
        assert!(found.is_before(&day(2023, 4, 1)));
    }
}
