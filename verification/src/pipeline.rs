//! The forecast of the next occurrence, and the course of a forecast over a
//! target period.
//!
//! The regression model is fitted outside this library, on the design matrix
//! and the occurrence indicator of the sampling window. A forecast over a
//! period needs a new fit after each forecast, so its course is kept here as a
//! state that the caller feeds with one forecast after another.

use crate::calendar::day_numbers;
use crate::calendar::CalendarDay;
use crate::candidates::candidates_of;
use crate::candidates::generate_candidates;
use crate::design::build_design_matrix;
use crate::design::design_columns;
use crate::design::design_labels;
use crate::design::DesignMatrix;
use crate::error::ForecastError;
use crate::holiday::HolidayLookup;
use crate::periodicity::estimate_period;
use crate::periodicity::estimated_period;
use crate::periodicity::DEFAULT_PERIOD;
use crate::scoring::best_candidate;
use crate::scoring::score;
use crate::scoring::RegressionModel;
use crate::window::occurrence_indicator;
use crate::window::occurrence_series;
use crate::window::SamplingWindow;
use vstd::prelude::*;

verus! {

/// The cycle that the candidates are generated with: the one found, or
/// `DEFAULT_PERIOD` where none was.
pub open spec fn period_or_default(found: Option<usize>) -> int {
    match found {
        Some(period) => period as int,
        None => DEFAULT_PERIOD as int,
    }
}

/// What `forecast` returns, as a day number.
pub open spec fn forecast_of(
    history: Seq<int>,
    window: SamplingWindow,
    offsets: Seq<i64>,
    holidays: Set<int>,
    model: RegressionModel,
) -> Result<int, ForecastError> {
    match estimated_period(history, window) {
        Err(e) => Err(e),
        Ok(found) => match candidates_of(history, offsets, period_or_default(found)) {
            Err(e) => Err(e),
            Ok(candidates) => best_candidate(
                candidates,
                design_labels(window.first@, window.last@),
                model,
                holidays,
            ),
        },
    }
}

/// The next occurrence after `history`, as `model` sees it.
///
/// The cycle is estimated from the occurrences in `window`, or taken as
/// `DEFAULT_PERIOD` where none shows. The candidates are the pivot moved by
/// each of `offsets`. `model` is the regression fitted on the design matrix of
/// `window`, with one coefficient for each of its columns; the candidate with
/// the strictly greatest score is the forecast, the first such on ties.
///
/// Fails with `InvalidRange` where `window` holds no day, `offsets` is empty or
/// a candidate would lie outside the supported calendar; with
/// `InsufficientHistory` where `history` holds fewer than two occurrences; with
/// `DegenerateModel` where `model` has not one coefficient per column.
pub fn forecast(
    history: &Vec<CalendarDay>,
    window: &SamplingWindow,
    offsets: &Vec<i64>,
    holidays: &HolidayLookup,
    model: &RegressionModel,
) -> (r: Result<CalendarDay, ForecastError>)
    ensures
        match r {
            Ok(day) => forecast_of(day_numbers(history@), *window, offsets@, holidays@, *model)
                == Ok::<int, ForecastError>(day@),
            Err(e) => forecast_of(day_numbers(history@), *window, offsets@, holidays@, *model)
                == Err::<int, ForecastError>(e),
        },
{
    let found = match estimate_period(history, window) {
        Ok(found) => found,
        Err(e) => {
            return Err(e);
        },
    };
    let period: usize = match found {
        Some(period) => period,
        None => DEFAULT_PERIOD,
    };
    let candidates = match generate_candidates(history, offsets, period) {
        Ok(candidates) => candidates,
        Err(e) => {
            return Err(e);
        },
    };
    let labels = match design_columns(window) {
        Ok(labels) => labels,
        Err(e) => {
            return Err(e);
        },
    };
    score(&candidates, &labels, model, holidays)
}

/// What a regression is fitted on: the design matrix of a sampling window and,
/// row for row, the occurrence indicator over it.
pub struct TrainingSet {
    pub matrix: DesignMatrix,
    /// One flag per row of the matrix: whether the event occurred on that day.
    pub target: Vec<bool>,
}

/// The training set of `history` over `window`. Fails with `InvalidRange`
/// where the window holds no day.
pub fn training_set(
    history: &Vec<CalendarDay>,
    window: &SamplingWindow,
    holidays: &HolidayLookup,
) -> (r: Result<TrainingSet, ForecastError>)
    ensures
        match r {
            Ok(set) => {
                &&& window.span() >= 1
                &&& set.matrix.is_design_of(window.first@, window.last@, holidays@)
                &&& set.target@ == occurrence_indicator(
                    day_numbers(history@),
                    window.first@,
                    window.span(),
                )
                &&& set.target.len() == set.matrix.rows.len()
            },
            Err(e) => e == ForecastError::InvalidRange && window.span() <= 0,
        },
{
    let matrix = match build_design_matrix(window, holidays) {
        Ok(matrix) => matrix,
        Err(e) => {
            return Err(e);
        },
    };
    let target = match occurrence_series(history, window) {
        Ok(target) => target,
        Err(e) => {
            return Err(e);
        },
    };
    Ok(TrainingSet { matrix, target })
}

/// What became of one forecast in the course of a forecast over a period.
#[derive(Clone, Copy, Debug, PartialEq, Eq, Structural)]
pub enum Step {
    /// It lies before the target period: it joined the history only.
    Skipped,
    /// It lies in the target period: it joined the history and the result.
    Emitted,
    /// It reaches the end of the target period: the course is over.
    Finished,
}

/// The course of a forecast of all occurrences in a target period, from
/// `target_start` up to, not including, `target_end`.
///
/// The caller forecasts the next occurrence from `history` and `window`, hands
/// it to `record`, and goes on until `record` says `Finished`; `forecasts` then
/// holds the result.
pub struct ForecastUntil {
    /// The occurrences so far: those given, then every forecast recorded.
    pub history: Vec<CalendarDay>,
    /// The sampling window for the next forecast.
    pub window: SamplingWindow,
    pub target_start: CalendarDay,
    pub target_end: CalendarDay,
    /// The forecasts that fell into the target period, in the order recorded.
    pub forecasts: Vec<CalendarDay>,
    /// Whether a forecast has reached the end of the target period.
    pub finished: bool,
}

impl ForecastUntil {
    /// Whether every forecast in the result lies in the target period.
    pub open spec fn forecasts_in_period(self) -> bool {
        forall|i: int|
            0 <= i < self.forecasts@.len() ==> self.target_start@ <= (#[trigger] self.forecasts@[i])@
                < self.target_end@
    }

    /// The start of a course over the period from `target_start` to
    /// `target_end`. Fails with `InvalidRange` where the end lies before the
    /// start.
    pub fn begin(
        history: Vec<CalendarDay>,
        window: SamplingWindow,
        target_start: CalendarDay,
        target_end: CalendarDay,
    ) -> (r: Result<ForecastUntil, ForecastError>)
        ensures
            match r {
                Ok(course) => {
                    &&& target_start@ <= target_end@
                    &&& course.history == history
                    &&& course.window == window
                    &&& course.target_start == target_start
                    &&& course.target_end == target_end
                    &&& course.forecasts@.len() == 0
                    &&& !course.finished
                    &&& course.forecasts_in_period()
                },
                Err(e) => e == ForecastError::InvalidRange && target_end@ < target_start@,
            },
    {
        if target_end.is_before(&target_start) {
            Err(ForecastError::InvalidRange)
        } else {
            Ok(
                ForecastUntil {
                    history,
                    window,
                    target_start,
                    target_end,
                    forecasts: Vec::new(),
                    finished: false,
                },
            )
        }
    }

    /// Takes in the forecast made from `history` and `window`.
    ///
    /// The forecast joins the history, and the sampling window then ends on
    /// it. A forecast before the target period is skipped; one that reaches
    /// the end of the period finishes the course; any other joins the result.
    /// A finished course takes in nothing more.
    pub fn record(&mut self, forecast: CalendarDay) -> (step: Step)
        ensures
            final(self).target_start == old(self).target_start,
            final(self).target_end == old(self).target_end,
            old(self).finished ==> step == Step::Finished && *final(self) == *old(self),
            !old(self).finished ==> {
                &&& final(self).history@ == old(self).history@.push(forecast)
                &&& final(self).window.first == old(self).window.first
                &&& final(self).window.last == forecast
                &&& step == if forecast@ < old(self).target_start@ {
                    Step::Skipped
                } else if forecast@ >= old(self).target_end@ {
                    Step::Finished
                } else {
                    Step::Emitted
                }
                &&& final(self).finished == (step == Step::Finished)
                &&& final(self).forecasts@ == if step == Step::Emitted {
                    old(self).forecasts@.push(forecast)
                } else {
                    old(self).forecasts@
                }
            },
            old(self).forecasts_in_period() ==> final(self).forecasts_in_period(),
    {
        if self.finished {
            return Step::Finished;
        }
        self.history.push(forecast);
        self.window.last = forecast;
        if forecast.is_before(&self.target_start) {
            Step::Skipped
        } else if !forecast.is_before(&self.target_end) {
            self.finished = true;
            Step::Finished
        } else {
            self.forecasts.push(forecast);
            Step::Emitted
        }
    }

    /// A course over an empty period, one whose end is its start, never emits
    /// a forecast.
    pub proof fn lemma_empty_period_emits_nothing(self)
        requires
            self.forecasts_in_period(),
            self.target_start@ == self.target_end@,
        ensures
            self.forecasts@.len() == 0,
    {
        if self.forecasts@.len() > 0 {
            let first = self.forecasts@[0];
            assert(self.target_start@ <= first@);
            assert(first@ < self.target_end@);
        }
    }
}

} // verus!
