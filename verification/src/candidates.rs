//! Candidate dates for the next occurrence.
//!
//! The candidates lie around a pivot: the latest occurrence moved on by the gap
//! that followed the occurrence one cycle back.

use crate::calendar::day_numbers;
use crate::calendar::supported_day;
use crate::calendar::CalendarDay;
use crate::calendar::FIRST_DAY_NUMBER;
use crate::calendar::LAST_DAY_NUMBER;
use crate::error::ForecastError;
use vstd::prelude::*;

verus! {

/// The longest gap, in days, that is carried over to the pivot.
pub const MAX_GAP: i64 = 365;

/// What a scan of the first `n` consecutive pairs of `history` selects for
/// `criterion`: of the last pair that brackets it, the earlier index where the
/// criterion is strictly closer to that occurrence, else the later index; 0
/// where no pair brackets it.
pub open spec fn closest_in_pairs(history: Seq<int>, criterion: int, n: int) -> int
    decreases n,
{
    if n <= 0 {
        0
    } else if history[n - 1] <= criterion <= history[n] {
        if criterion - history[n - 1] < history[n] - criterion {
            n - 1
        } else {
            n
        }
    } else {
        closest_in_pairs(history, criterion, n - 1)
    }
}

/// The index of the occurrence that counts as closest to `criterion`: the last
/// index where the criterion lies after the last occurrence, else what the scan
/// of all consecutive pairs selects.
pub open spec fn closest_occurrence(history: Seq<int>, criterion: int) -> int {
    if history.len() == 0 {
        0
    } else if history.last() < criterion {
        history.len() - 1
    } else {
        closest_in_pairs(history, criterion, history.len() - 1)
    }
}

/// Whether each entry is smaller than all that follow it.
pub open spec fn strictly_increasing(s: Seq<int>) -> bool {
    forall|i: int, j: int| 0 <= i < j < s.len() ==> s[i] < s[j]
}

/// The number of days between two day numbers, whichever comes first.
pub open spec fn distance(a: int, b: int) -> int {
    if a >= b {
        a - b
    } else {
        b - a
    }
}

/// Whether `history[index]` is among the first `n` entries one that is nearest
/// to `criterion`, and the last such one.
pub open spec fn is_nearest_among(history: Seq<int>, criterion: int, index: int, n: int) -> bool {
    &&& 0 <= index < n
    &&& forall|j: int|
        0 <= j < n ==> distance(history[index], criterion) <= distance(
            #[trigger] history[j],
            criterion,
        )
    &&& forall|j: int|
        index < j < n ==> distance(history[index], criterion) < distance(
            #[trigger] history[j],
            criterion,
        )
}

proof fn lemma_scan_finds_nearest(history: Seq<int>, criterion: int, n: int)
    requires
        strictly_increasing(history),
        0 <= n < history.len(),
    ensures
        history[0] <= criterion <= history[n] ==> is_nearest_among(
            history,
            criterion,
            closest_in_pairs(history, criterion, n),
            n + 1,
        ),
        !(history[0] <= criterion <= history[n]) ==> closest_in_pairs(history, criterion, n) == 0,
    decreases n,
{
    if n > 0 {
        lemma_scan_finds_nearest(history, criterion, n - 1);
        if history[n - 1] <= criterion <= history[n] {
            let r = closest_in_pairs(history, criterion, n);
            assert forall|j: int| 0 <= j < n + 1 implies distance(history[r], criterion)
                <= distance(#[trigger] history[j], criterion) by {
                if j < n - 1 {
                    assert(history[j] < history[n - 1]);
                }
            }
        } else if history[0] <= criterion <= history[n] {
            let r = closest_in_pairs(history, criterion, n - 1);
            assert(history[n - 1] < history[n]);
            assert(criterion < history[n - 1]);
            assert(distance(history[r], criterion) <= distance(history[n - 1], criterion));
        } else {
            assert(history[0] <= history[n - 1]) by {
                if n - 1 > 0 {
                    assert(history[0] < history[n - 1]);
                }
            }
            assert(history[n - 1] < history[n]);
        }
    }
}

/// On a strictly increasing history, the occurrence that counts as closest to
/// a criterion is a nearest one in days, and the later one of two that are
/// equally near.
pub proof fn lemma_closest_is_nearest(history: Seq<int>, criterion: int)
    requires
        strictly_increasing(history),
        history.len() >= 1,
    ensures
        is_nearest_among(
            history,
            criterion,
            closest_occurrence(history, criterion),
            history.len() as int,
        ),
{
    let last = history.len() - 1;
    if history.last() < criterion {
        assert forall|j: int| 0 <= j < last implies history[j] < history[last] by {}
    } else {
        lemma_scan_finds_nearest(history, criterion, last);
        if !(history[0] <= criterion) {
            assert forall|j: int| 0 < j < history.len() implies history[0] < #[trigger] history[j] by {}
        }
    }
}

proof fn lemma_scan_stays_in_range(history: Seq<int>, criterion: int, n: int)
    requires
        0 <= n,
    ensures
        0 <= closest_in_pairs(history, criterion, n) <= n,
    decreases n,
{
    if n > 0 {
        lemma_scan_stays_in_range(history, criterion, n - 1);
    }
}

proof fn lemma_scan_below_all(history: Seq<int>, criterion: int, n: int)
    requires
        0 <= n < history.len(),
        forall|j: int| 0 <= j < history.len() ==> criterion < #[trigger] history[j],
    ensures
        closest_in_pairs(history, criterion, n) == 0,
    decreases n,
{
    if n > 0 {
        lemma_scan_below_all(history, criterion, n - 1);
    }
}

/// The index in `history` of the occurrence that counts as closest to the day
/// with number `criterion`; 0 for an empty history.
pub fn closest_occurrence_index(history: &Vec<CalendarDay>, criterion: i64) -> (index: usize)
    ensures
        index == closest_occurrence(day_numbers(history@), criterion as int),
        history.len() >= 1 ==> index < history.len(),
        history.len() >= 1 && strictly_increasing(day_numbers(history@)) ==> is_nearest_among(
            day_numbers(history@),
            criterion as int,
            index as int,
            history.len() as int,
        ),
{
    let n: usize = history.len();
    if n == 0 {
        return 0;
    }
    let ghost days = day_numbers(history@);
    let mut index: usize = 0;
    let mut i: usize = 0;
    while i + 1 < n
        invariant
            n == history.len(),
            n >= 1,
            i < n,
            days == day_numbers(history@),
            index == closest_in_pairs(days, criterion as int, i as int),
            index <= i,
        decreases n - i,
    {
        let earlier: i64 = history[i].day_number() as i64;
        let later: i64 = history[i + 1].day_number() as i64;
        assert(days[i as int] == earlier && days[i + 1] == later);
        if earlier <= criterion && criterion <= later {
            if criterion - earlier < later - criterion {
                index = i;
            } else {
                index = i + 1;
            }
        }
        i += 1;
    }
    let latest: i64 = history[n - 1].day_number() as i64;
    assert(days.last() == latest);
    if latest < criterion {
        index = n - 1;
    }
    proof {
        if strictly_increasing(days) {
            lemma_closest_is_nearest(days, criterion as int);
        }
    }
    index
}

/// The index of the occurrence whose following gap is carried over: the
/// occurrence closest to one cycle before the latest, or the one before it
/// where that is the latest occurrence itself, after which no gap follows.
pub open spec fn gap_index(history: Seq<int>, period: int) -> int {
    let closest = closest_occurrence(history, history.last() - period);
    if closest + 1 < history.len() {
        closest
    } else {
        history.len() - 2
    }
}

/// The gap, in days, that is carried over to the pivot: the days from the
/// occurrence at `gap_index` to the next, and no more than `MAX_GAP`.
pub open spec fn recurrence_gap(history: Seq<int>, period: int) -> int {
    let i = gap_index(history, period);
    let days = history[i + 1] - history[i];
    if days > MAX_GAP {
        MAX_GAP as int
    } else {
        days
    }
}

/// The day number of the pivot: the latest occurrence moved on by the gap.
pub open spec fn pivot_of(history: Seq<int>, period: int) -> int {
    history.last() + recurrence_gap(history, period)
}

/// What `generate_candidates` returns, as day numbers.
pub open spec fn candidates_of(history: Seq<int>, offsets: Seq<i64>, period: int) -> Result<
    Seq<int>,
    ForecastError,
> {
    if history.len() < 2 {
        Err(ForecastError::InsufficientHistory)
    } else if offsets.len() == 0 || exists|j: int|
        0 <= j < offsets.len() && !supported_day(pivot_of(history, period) + #[trigger] offsets[j]) {
        Err(ForecastError::InvalidRange)
    } else {
        Ok(Seq::new(offsets.len(), |j: int| pivot_of(history, period) + offsets[j]))
    }
}

/// The criterion of days one `period` before the latest occurrence, brought
/// into a 64-bit count: a period too long for that gives a criterion before
/// every day there is, and so does the bound that stands in for it.
fn criterion_before(latest: i64, period: usize) -> (criterion: i64)
    requires
        i32::MIN <= latest <= i32::MAX,
    ensures
        criterion <= latest,
        criterion == latest - period || (criterion < i32::MIN && latest - period < i32::MIN),
{
    let days: u64 = period as u64;
    if days <= 0x2_0000_0000 {
        latest - days as i64
    } else {
        latest - 0x2_0000_0000
    }
}

proof fn lemma_criterion_before_all(history: Seq<CalendarDay>, a: int, b: int)
    requires
        history.len() >= 1,
        a < i32::MIN,
        b < i32::MIN,
    ensures
        closest_occurrence(day_numbers(history), a) == closest_occurrence(day_numbers(history), b),
{
    let days = day_numbers(history);
    assert forall|j: int| 0 <= j < days.len() implies a < #[trigger] days[j] && b < days[j] by {
        CalendarDay::lemma_day_number_is_bounded(history[j]);
    }
    lemma_scan_below_all(days, a, days.len() - 1);
    lemma_scan_below_all(days, b, days.len() - 1);
}

/// The candidate dates for the next occurrence after `history`: the pivot
/// moved by each of `offsets`, in the order of the offsets. The pivot is the
/// latest occurrence moved on by the gap that followed the occurrence closest
/// to one `period` before the latest, that gap being capped at `MAX_GAP`.
///
/// Fails with `InsufficientHistory` where `history` holds fewer than two
/// occurrences, and with `InvalidRange` where `offsets` is empty or a candidate
/// would lie outside the supported calendar.
pub fn generate_candidates(history: &Vec<CalendarDay>, offsets: &Vec<i64>, period: usize) -> (r:
    Result<Vec<CalendarDay>, ForecastError>)
    ensures
        match r {
            Ok(candidates) => candidates_of(day_numbers(history@), offsets@, period as int) == Ok::<
                Seq<int>,
                ForecastError,
            >(day_numbers(candidates@)),
            Err(e) => candidates_of(day_numbers(history@), offsets@, period as int) == Err::<
                Seq<int>,
                ForecastError,
            >(e),
        },
{
    let n: usize = history.len();
    if n < 2 {
        return Err(ForecastError::InsufficientHistory);
    }
    let ghost days = day_numbers(history@);
    let latest: i64 = history[n - 1].day_number() as i64;
    assert(days.last() == latest);
    let criterion: i64 = criterion_before(latest, period);
    proof {
        if criterion != latest - period {
            lemma_criterion_before_all(history@, criterion as int, latest - period);
        }
    }
    let closest: usize = closest_occurrence_index(history, criterion);
    let i: usize = if closest + 1 < n {
        closest
    } else {
        n - 2
    };
    assert(i == gap_index(days, period as int));
    let mut gap: i64 = history[i + 1].days_since(&history[i]);
    assert(gap == days[i + 1] - days[i as int]);
    if gap > MAX_GAP {
        gap = MAX_GAP;
    }
    let pivot: i64 = latest + gap;
    assert(pivot == pivot_of(days, period as int));
    if offsets.len() == 0 {
        return Err(ForecastError::InvalidRange);
    }
    let lowest: i64 = FIRST_DAY_NUMBER as i64 - pivot;
    let highest: i64 = LAST_DAY_NUMBER as i64 - pivot;
    let mut candidates: Vec<CalendarDay> = Vec::new();
    let mut j: usize = 0;
    while j < offsets.len()
        invariant
            j <= offsets.len(),
            candidates.len() == j,
            lowest == FIRST_DAY_NUMBER - pivot,
            highest == LAST_DAY_NUMBER - pivot,
            -0x1_0000_0000 <= pivot <= 0x1_0000_0000,
            history.len() >= 2,
            days == day_numbers(history@),
            pivot == pivot_of(days, period as int),
            forall|k: int| 0 <= k < j ==> supported_day(pivot + #[trigger] offsets[k]),
            forall|k: int| 0 <= k < j ==> (#[trigger] candidates[k])@ == pivot + offsets[k],
        decreases offsets.len() - j,
    {
        let offset: i64 = offsets[j];
        if offset < lowest || offset > highest {
            assert(!supported_day(pivot + offsets[j as int]));
            return Err(ForecastError::InvalidRange);
        }
        let day: i64 = pivot + offset;
        candidates.push(CalendarDay::from_day_number(day as i32).unwrap());
        j += 1;
    }
    assert(day_numbers(candidates@) =~= Seq::new(
        offsets@.len(),
        |j: int| pivot_of(days, period as int) + offsets@[j],
    ));
    Ok(candidates)
}

/// The candidates stand in the order of the offsets: one comes before another
/// exactly where its offset is the smaller.
pub proof fn lemma_candidates_keep_offset_order(
    history: Seq<int>,
    offsets: Seq<i64>,
    period: int,
    a: int,
    b: int,
)
    requires
        candidates_of(history, offsets, period) is Ok,
        0 <= a < offsets.len(),
        0 <= b < offsets.len(),
    ensures
        candidates_of(history, offsets, period)->Ok_0.len() == offsets.len(),
        (candidates_of(history, offsets, period)->Ok_0[a] < candidates_of(
            history,
            offsets,
            period,
        )->Ok_0[b]) == (offsets[a] < offsets[b]),
        candidates_of(history, offsets, period)->Ok_0[a] - pivot_of(history, period) == offsets[a],
{
}

/// After a strictly increasing history the pivot lies after the latest
/// occurrence: the gap that is carried over is at least one day.
pub proof fn lemma_pivot_is_after_latest(history: Seq<int>, period: int)
    requires
        strictly_increasing(history),
        history.len() >= 2,
    ensures
        1 <= recurrence_gap(history, period) <= MAX_GAP,
        pivot_of(history, period) > history.last(),
{
    lemma_scan_stays_in_range(history, history.last() - period, history.len() - 1);
    let i = gap_index(history, period);
    assert(0 <= i < history.len() - 1);
    assert(history[i] < history[i + 1]);
}

/// A history of exactly two occurrences always yields a gap: the days between
/// the two, capped at `MAX_GAP`, whatever the period.
pub proof fn lemma_gap_of_two_occurrences(history: Seq<int>, period: int)
    requires
        history.len() == 2,
    ensures
        gap_index(history, period) == 0,
        recurrence_gap(history, period) == if history[1] - history[0] > MAX_GAP {
            MAX_GAP as int
        } else {
            history[1] - history[0]
        },
        pivot_of(history, period) == history[1] + recurrence_gap(history, period),
{
    lemma_scan_stays_in_range(history, history.last() - period, 1);
}

} // verus!
