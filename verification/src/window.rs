//! The sampling window and the occurrence indicator over it.

use crate::calendar::day_numbers;
use crate::calendar::supported_day;
use crate::calendar::CalendarDay;
use crate::error::ForecastError;
use vstd::prelude::*;

verus! {

/// A closed interval of days, from `first` to `last`, over which occurrences
/// are sampled. It holds no day where `last` comes before `first`.
#[derive(Clone, Copy, Debug, PartialEq, Eq, Structural)]
pub struct SamplingWindow {
    pub first: CalendarDay,
    pub last: CalendarDay,
}

impl SamplingWindow {
    /// The number of days in the window; zero or less where it is back to
    /// front.
    pub open spec fn span(self) -> int {
        self.last@ - self.first@ + 1
    }

    /// The number of days in the window. Fails with `InvalidRange` where the
    /// window holds no day.
    pub fn day_count(&self) -> (r: Result<usize, ForecastError>)
        ensures
            match r {
                Ok(n) => n == self.span() && n >= 1,
                Err(e) => e == ForecastError::InvalidRange && self.span() <= 0,
            },
            supported_day(self.first@),
            supported_day(self.last@),
    {
        let first: i32 = self.first.day_number();
        let last: i32 = self.last.day_number();
        if last < first {
            Err(ForecastError::InvalidRange)
        } else {
            Ok((last - first + 1) as usize)
        }
    }
}

/// The occurrence indicator over `len` days from day number `first`: entry `i`
/// says whether day `first + i` is one of `history`.
pub open spec fn occurrence_indicator(history: Seq<int>, first: int, len: int) -> Seq<bool> {
    Seq::new(len as nat, |i: int| history.contains(first + i))
}

proof fn lemma_contains_one_more(s: Seq<int>, k: int, x: int)
    requires
        0 <= k < s.len(),
    ensures
        s.take(k + 1).contains(x) == (s.take(k).contains(x) || s[k] == x),
{
    let shorter = s.take(k);
    let longer = s.take(k + 1);
    if shorter.contains(x) {
        let j = choose|j: int| 0 <= j < shorter.len() && shorter[j] == x;
        assert(longer[j] == x);
    }
    if s[k] == x {
        assert(longer[k] == x);
    }
    if longer.contains(x) {
        let j = choose|j: int| 0 <= j < longer.len() && longer[j] == x;
        if j < k {
            assert(shorter[j] == x);
        }
    }
}

/// The occurrence indicator of `history` over `window`, one flag per day.
/// Fails with `InvalidRange` where the window holds no day.
pub fn occurrence_series(history: &Vec<CalendarDay>, window: &SamplingWindow) -> (r: Result<
    Vec<bool>,
    ForecastError,
>)
    ensures
        match r {
            Ok(series) => window.span() >= 1 && series@ == occurrence_indicator(
                day_numbers(history@),
                window.first@,
                window.span(),
            ),
            Err(e) => e == ForecastError::InvalidRange && window.span() <= 0,
        },
{
    let len: usize = match window.day_count() {
        Ok(n) => n,
        Err(e) => {
            return Err(e);
        },
    };
    let first: i32 = window.first.day_number();
    let last: i32 = window.last.day_number();
    let mut series: Vec<bool> = vec![false; len];
    let ghost days = day_numbers(history@);
    let mut k: usize = 0;
    assert(days.take(0).len() == 0);
    while k < history.len()
        invariant
            k <= history.len(),
            days == day_numbers(history@),
            first == window.first@,
            last == window.last@,
            len == last - first + 1,
            supported_day(first as int),
            supported_day(last as int),
            series.len() == len,
            forall|i: int| 0 <= i < len ==> series@[i] == days.take(k as int).contains(first + i),
        decreases history.len() - k,
    {
        let d: i32 = history[k].day_number();
        assert(days[k as int] == d);
        if first <= d && d <= last {
            series.set((d - first) as usize, true);
        }
        assert forall|i: int| 0 <= i < len implies series@[i] == days.take(k + 1).contains(
            first + i,
        ) by {
            lemma_contains_one_more(days, k as int, first + i);
        }
        k += 1;
    }
    assert(days.take(k as int) =~= days);
    assert(series@ =~= occurrence_indicator(days, first as int, len as int));
    Ok(series)
}

} // verus!
