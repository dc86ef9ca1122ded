//! Forecasting the next date of an irregularly recurring event from the dates
//! on which it has happened.
//!
//! A forecast takes four steps. The recurrence cycle is estimated from the
//! autocorrelation of the occurrences over a sampling window. Candidate dates
//! are laid around a pivot, one gap after the latest occurrence. A linear model
//! is fitted on the one-hot design matrix of the window; the fit itself is
//! floating-point work and is left to the caller, who hands the model back in
//! fixed-point form. The candidate that the model scores highest is the
//! forecast.
//!
//! Dates are day numbers of the proleptic Gregorian calendar. Their civil
//! fields come from `chrono`, the Japanese public holidays from `jpholiday`;
//! what these two compute is believed, everything built on it is verified.

pub mod calendar;
pub mod candidates;
pub mod design;
pub mod error;
pub mod events;
pub mod features;
pub mod holiday;
pub mod inputs;
pub mod periodicity;
pub mod pipeline;
pub mod scoring;
pub mod window;

pub use crate::calendar::CalendarDay;
pub use crate::candidates::closest_occurrence_index;
pub use crate::candidates::generate_candidates;
pub use crate::design::build_design_matrix;
pub use crate::design::design_columns;
pub use crate::design::one_hot_row;
pub use crate::design::ColumnLabel;
pub use crate::design::DesignMatrix;
pub use crate::error::ForecastError;
pub use crate::events::occurrence_day;
pub use crate::events::parse_day;
pub use crate::events::parse_timestamp_day;
pub use crate::events::CalendarEvent;
pub use crate::events::EventItem;
pub use crate::events::EventItemPeriod;
pub use crate::events::OriginalStartTime;
pub use crate::features::encode;
pub use crate::features::encode_all;
pub use crate::features::DayFeatures;
pub use crate::features::DayType;
pub use crate::holiday::HolidayLookup;
pub use crate::inputs::default_window;
pub use crate::inputs::fiscal_year_first_date;
pub use crate::inputs::fiscal_year_period;
pub use crate::inputs::read_history;
pub use crate::inputs::symmetric_offsets;
pub use crate::periodicity::autocorrelation;
pub use crate::periodicity::dominant_lag;
pub use crate::periodicity::estimate_period;
pub use crate::periodicity::LagCorrelation;
pub use crate::pipeline::forecast;
pub use crate::pipeline::training_set;
pub use crate::pipeline::ForecastUntil;
pub use crate::pipeline::Step;
pub use crate::pipeline::TrainingSet;
pub use crate::scoring::max_index;
pub use crate::scoring::score;
pub use crate::scoring::RegressionModel;
pub use crate::window::occurrence_series;
pub use crate::window::SamplingWindow;
