//! Scoring candidate dates with a fitted linear model.
//!
//! A model holds one coefficient per column of a design matrix and an
//! intercept. They are integers in a fixed-point unit that the fitter chooses;
//! the score of a one-hot row is the intercept plus the coefficients of the
//! columns that are set, and scores are compared exactly.

use crate::calendar::day_numbers;
use crate::calendar::CalendarDay;
use crate::design::encoded_row;
use crate::design::one_hot_row;
use crate::design::ColumnLabel;
use crate::error::ForecastError;
use crate::features::encode;
use crate::holiday::HolidayLookup;
use vstd::prelude::*;

verus! {

/// A linear model over the columns of a design matrix.
pub struct RegressionModel {
    /// One coefficient per column.
    pub coefficients: Vec<i64>,
    pub intercept: i64,
}

/// The sum of the coefficients of those among the first `n` columns that are
/// set in `row`.
pub open spec fn selected_sum(coefficients: Seq<i64>, row: Seq<bool>, n: int) -> int
    decreases n,
{
    if n <= 0 {
        0
    } else {
        selected_sum(coefficients, row, n - 1) + if row[n - 1] {
            coefficients[n - 1] as int
        } else {
            0int
        }
    }
}

impl RegressionModel {
    /// The score of `row`: the intercept plus the product of the row and the
    /// coefficients.
    pub open spec fn score_of(self, row: Seq<bool>) -> int {
        self.intercept + selected_sum(self.coefficients@, row, row.len() as int)
    }

    /// The score of `row`. Fails with `DegenerateModel` where the model has
    /// not one coefficient for each entry of the row.
    pub fn score_row(&self, row: &Vec<bool>) -> (r: Result<i128, ForecastError>)
        ensures
            match r {
                Ok(score) => row.len() == self.coefficients.len() && score == self.score_of(row@),
                Err(e) => e == ForecastError::DegenerateModel && row.len()
                    != self.coefficients.len(),
            },
    {
        let n: usize = row.len();
        if self.coefficients.len() != n {
            return Err(ForecastError::DegenerateModel);
        }
        let mut score: i128 = self.intercept as i128;
        let mut c: usize = 0;
        while c < n
            invariant
                c <= n,
                n == row.len(),
                n == self.coefficients.len(),
                score == self.intercept + selected_sum(self.coefficients@, row@, c as int),
                -(c + 1) * 0x8000_0000_0000_0000 <= score <= (c + 1) * 0x7fff_ffff_ffff_ffff,
            decreases n - c,
        {
            if row[c] {
                score = score + self.coefficients[c] as i128;
            }
            c += 1;
        }
        Ok(score)
    }
}

/// The index that a scan in order selects among `scores`: it moves on only to
/// a score strictly greater than the one held. 0 for no scores.
pub open spec fn best_index(scores: Seq<int>) -> int
    decreases scores.len(),
{
    if scores.len() <= 1 {
        0
    } else {
        let before = best_index(scores.drop_last());
        if scores[before] < scores.last() {
            scores.len() - 1
        } else {
            before
        }
    }
}

/// Whether `scores[index]` is the greatest score, and the first of that value.
pub open spec fn is_first_greatest(scores: Seq<int>, index: int) -> bool {
    &&& 0 <= index < scores.len()
    &&& forall|j: int| 0 <= j < scores.len() ==> #[trigger] scores[j] <= scores[index]
    &&& forall|j: int| 0 <= j < index ==> #[trigger] scores[j] < scores[index]
}

/// The candidate chosen is one of the candidates.
pub proof fn lemma_best_candidate_is_a_candidate(
    candidates: Seq<int>,
    labels: Seq<ColumnLabel>,
    model: RegressionModel,
    holidays: Set<int>,
)
    requires
        best_candidate(candidates, labels, model, holidays) is Ok,
    ensures
        candidates.contains(best_candidate(candidates, labels, model, holidays)->Ok_0),
{
    let scores = candidate_scores(candidates, labels, model, holidays);
    lemma_best_index_is_first_greatest(scores);
    assert(candidates[best_index(scores)] == best_candidate(
        candidates,
        labels,
        model,
        holidays,
    )->Ok_0);
}

/// The scan selects the greatest score, and the first one on ties.
pub proof fn lemma_best_index_is_first_greatest(scores: Seq<int>)
    requires
        scores.len() >= 1,
    ensures
        is_first_greatest(scores, best_index(scores)),
    decreases scores.len(),
{
    if scores.len() > 1 {
        let shorter = scores.drop_last();
        lemma_best_index_is_first_greatest(shorter);
        let before = best_index(shorter);
        assert forall|j: int| 0 <= j < shorter.len() implies shorter[j] == scores[j] by {}
        if scores[before] < scores.last() {
            assert forall|j: int| 0 <= j < scores.len() - 1 implies #[trigger] scores[j]
                < scores.last() by {
                assert(shorter[j] <= shorter[before]);
            }
        } else {
            assert forall|j: int| 0 <= j < scores.len() implies #[trigger] scores[j]
                <= scores[before] by {
                if j < scores.len() - 1 {
                    assert(shorter[j] <= shorter[before]);
                }
            }
            assert forall|j: int| 0 <= j < before implies #[trigger] scores[j]
                < scores[before] by {
                assert(shorter[j] < shorter[before]);
            }
        }
    }
}

/// The scores as mathematical integers.
pub open spec fn score_values(scores: Seq<i128>) -> Seq<int> {
    scores.map_values(|s: i128| s as int)
}

/// The index of the strictly greatest of `scores`, the first one on ties;
/// `None` for no scores.
pub fn max_index(scores: &Vec<i128>) -> (r: Option<usize>)
    ensures
        match r {
            Some(index) => index == best_index(score_values(scores@)) && is_first_greatest(
                score_values(scores@),
                index as int,
            ),
            None => scores.len() == 0,
        },
{
    if scores.len() == 0 {
        return None;
    }
    let ghost values = score_values(scores@);
    let mut index: usize = 0;
    let mut i: usize = 1;
    assert(values.take(1).len() == 1);
    while i < scores.len()
        invariant
            1 <= i <= scores.len(),
            values == score_values(scores@),
            index < i,
            index == best_index(values.take(i as int)),
        decreases scores.len() - i,
    {
        proof {
            let longer = values.take(i + 1);
            assert(longer.drop_last() =~= values.take(i as int));
            assert(longer.last() == scores[i as int]);
            assert(longer[index as int] == scores[index as int]);
        }
        if scores[index] < scores[i] {
            index = i;
        }
        i += 1;
    }
    proof {
        assert(values.take(i as int) =~= values);
        lemma_best_index_is_first_greatest(values);
    }
    Some(index)
}

/// The score of each of the day numbers `candidates` under `model`, its row
/// being one-hot under `labels`.
pub open spec fn candidate_scores(
    candidates: Seq<int>,
    labels: Seq<ColumnLabel>,
    model: RegressionModel,
    holidays: Set<int>,
) -> Seq<int> {
    Seq::new(
        candidates.len(),
        |j: int| model.score_of(encoded_row(labels, candidates[j], holidays)),
    )
}

/// What `score` returns, as a day number.
pub open spec fn best_candidate(
    candidates: Seq<int>,
    labels: Seq<ColumnLabel>,
    model: RegressionModel,
    holidays: Set<int>,
) -> Result<int, ForecastError> {
    if candidates.len() == 0 {
        Err(ForecastError::InvalidRange)
    } else if model.coefficients.len() != labels.len() {
        Err(ForecastError::DegenerateModel)
    } else {
        Ok(candidates[best_index(candidate_scores(candidates, labels, model, holidays))])
    }
}

/// The candidate with the strictly greatest score under `model`, the first
/// such candidate on ties. The row of a candidate is one-hot under `labels`; a
/// category value of the candidate that no column stands for adds nothing to
/// its score.
///
/// Fails with `InvalidRange` where there is no candidate, and with
/// `DegenerateModel` where the model has not one coefficient per column.
pub fn score(
    candidates: &Vec<CalendarDay>,
    labels: &Vec<ColumnLabel>,
    model: &RegressionModel,
    holidays: &HolidayLookup,
) -> (r: Result<CalendarDay, ForecastError>)
    ensures
        match r {
            Ok(best) => best_candidate(day_numbers(candidates@), labels@, *model, holidays@) == Ok::<
                int,
                ForecastError,
            >(best@),
            Err(e) => best_candidate(day_numbers(candidates@), labels@, *model, holidays@) == Err::<
                int,
                ForecastError,
            >(e),
        },
        r is Ok ==> is_first_greatest(
            candidate_scores(day_numbers(candidates@), labels@, *model, holidays@),
            best_index(candidate_scores(day_numbers(candidates@), labels@, *model, holidays@)),
        ),
{
    if candidates.len() == 0 {
        return Err(ForecastError::InvalidRange);
    }
    if model.coefficients.len() != labels.len() {
        return Err(ForecastError::DegenerateModel);
    }
    let ghost expected = candidate_scores(day_numbers(candidates@), labels@, *model, holidays@);
    let mut scores: Vec<i128> = Vec::new();
    let mut j: usize = 0;
    while j < candidates.len()
        invariant
            j <= candidates.len(),
            scores.len() == j,
            model.coefficients.len() == labels.len(),
            expected == candidate_scores(day_numbers(candidates@), labels@, *model, holidays@),
            forall|k: int| 0 <= k < j ==> #[trigger] scores[k] == expected[k],
        decreases candidates.len() - j,
    {
        let features = encode(candidates[j], holidays);
        let row = one_hot_row(labels, &features);
        assert(row@ == encoded_row(labels@, candidates[j as int]@, holidays@));
        match model.score_row(&row) {
            Ok(value) => {
                scores.push(value);
            },
            Err(e) => {
                return Err(e);
            },
        }
        j += 1;
    }
    assert(score_values(scores@) =~= expected);
    match max_index(&scores) {
        Some(index) => Ok(candidates[index]),
        None => Err(ForecastError::InvalidRange),
    }
}

} // verus!
