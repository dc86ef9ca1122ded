//! The recurrence cycle of an event, estimated from the autocorrelation of
//! its occurrence indicator over a sampling window.
//!
//! The indicator holds one flag per day of the window. The autocorrelation at
//! lag `k` is the mean of the products of the indicator with itself shifted by
//! `k` days; as the indicator holds only zeros and ones, that mean is a
//! fraction of two counts, and fractions are compared exactly.

use crate::calendar::day_numbers;
use crate::calendar::CalendarDay;
use crate::error::ForecastError;
use crate::window::occurrence_indicator;
use crate::window::occurrence_series;
use crate::window::SamplingWindow;
use vstd::prelude::*;

verus! {

/// The longest cycle, in days, that the estimate considers.
pub const MAX_LAG: usize = 400;

/// The cycle, in days, to assume where none is detected.
pub const DEFAULT_PERIOD: usize = 365;

/// The number of positions `i` below `n` at which both `series[i]` and
/// `series[i + lag]` are set: the sum of the first `n` products of the
/// indicator with itself shifted by `lag`.
pub open spec fn pair_count(series: Seq<bool>, lag: int, n: int) -> int
    decreases n,
{
    if n <= 0 {
        0
    } else {
        pair_count(series, lag, n - 1) + if series[n - 1] && series[n - 1 + lag] {
            1int
        } else {
            0int
        }
    }
}

/// The autocorrelation at one lag, as an exact fraction: the mean of `terms`
/// products of which `pairs` are one and the others zero.
#[derive(Clone, Copy, Debug, PartialEq, Eq, Structural)]
pub struct LagCorrelation {
    /// The sum of the products.
    pub pairs: u64,
    /// The number of products.
    pub terms: u64,
}

proof fn lemma_product_fits(a: u64, b: u64)
    ensures
        a * b <= u128::MAX,
{
    assert(a * b <= 0xffff_ffff_ffff_ffff * 0xffff_ffff_ffff_ffff) by (nonlinear_arith)
        requires
            0 <= a <= 0xffff_ffff_ffff_ffff,
            0 <= b <= 0xffff_ffff_ffff_ffff,
    {
    }
}

impl LagCorrelation {
    /// Whether this mean is strictly greater than `other`, for means of at
    /// least one term each: `pairs / terms > other.pairs / other.terms`,
    /// written without division.
    pub open spec fn exceeds(self, other: LagCorrelation) -> bool {
        other.pairs * self.terms < self.pairs * other.terms
    }

    /// Whether this mean is strictly greater than `other`.
    pub fn is_greater_than(&self, other: &LagCorrelation) -> (r: bool)
        ensures
            r == self.exceeds(*other),
    {
        proof {
            lemma_product_fits(other.pairs, self.terms);
            lemma_product_fits(self.pairs, other.terms);
        }
        let left: u128 = (other.pairs as u128) * (self.terms as u128);
        let right: u128 = (self.pairs as u128) * (other.terms as u128);
        left < right
    }
}

/// The number of lags for which a series of `len` days has an autocorrelation
/// entry: those from 1 to `len - 1`, and no more than `MAX_LAG` of them.
pub open spec fn lag_count(len: int) -> int {
    if len <= 1 {
        0
    } else if len - 1 <= MAX_LAG {
        len - 1
    } else {
        MAX_LAG as int
    }
}

/// Whether `entry` is the autocorrelation of `series` at `lag`.
pub open spec fn is_correlation_at(entry: LagCorrelation, series: Seq<bool>, lag: int) -> bool {
    &&& entry.terms == series.len() - lag
    &&& entry.pairs == pair_count(series, lag, series.len() - lag)
}

/// The autocorrelation of `series` at the lags 1, 2, ... in this order: entry
/// `k - 1` is the mean of the `len - k` products at lag `k`. Lags at which no
/// product exists, and lags over `MAX_LAG`, have no entry.
pub fn autocorrelation(series: &Vec<bool>) -> (ac: Vec<LagCorrelation>)
    ensures
        ac.len() == lag_count(series.len() as int),
        ac.len() <= series.len(),
        ac.len() <= MAX_LAG,
        forall|k: int| 1 <= k <= ac.len() ==> is_correlation_at(#[trigger] ac[k - 1], series@, k),
        all_proper(ac@),
{
    let len: usize = series.len();
    let lags: usize = if len <= 1 {
        0
    } else if len - 1 <= MAX_LAG {
        len - 1
    } else {
        MAX_LAG
    };
    let mut ac: Vec<LagCorrelation> = Vec::new();
    let mut lag: usize = 1;
    while lag <= lags
        invariant
            1 <= lag <= lags + 1,
            lags == lag_count(len as int),
            len == series.len(),
            ac.len() == lag - 1,
            forall|k: int| 1 <= k <= ac.len() ==> is_correlation_at(#[trigger] ac[k - 1], series@, k),
            forall|j: int| 0 <= j < ac.len() ==> (#[trigger] ac[j]).terms >= 1,
        decreases lags + 1 - lag,
    {
        let terms: usize = len - lag;
        let mut pairs: usize = 0;
        let mut i: usize = 0;
        while i < terms
            invariant
                i <= terms,
                terms == len - lag,
                len == series.len(),
                1 <= lag,
                pairs == pair_count(series@, lag as int, i as int),
                pairs <= i,
            decreases terms - i,
        {
            if series[i] && series[i + lag] {
                pairs += 1;
            }
            i += 1;
        }
        let entry = LagCorrelation { pairs: pairs as u64, terms: terms as u64 };
        let ghost earlier = ac@;
        ac.push(entry);
        assert forall|k: int| 1 <= k <= ac.len() implies is_correlation_at(
            #[trigger] ac[k - 1],
            series@,
            k,
        ) by {
            if k < ac.len() {
                assert(ac[k - 1] == earlier[k - 1]);
            }
        }
        lag += 1;
    }
    ac
}

/// A mean of zero, the value that an entry must exceed to count as a cycle.
pub open spec fn zero_mean() -> LagCorrelation {
    LagCorrelation { pairs: 0, terms: 1 }
}

/// The lag that a scan of the entries in increasing-lag order selects: it
/// starts from a mean of zero and moves to an entry only where that entry is
/// strictly greater than the one held. Lags count from 1; 0 says that no entry
/// is greater than zero.
pub open spec fn dominant_lag_of(ac: Seq<LagCorrelation>) -> int
    decreases ac.len(),
{
    if ac.len() == 0 {
        0
    } else {
        let before = dominant_lag_of(ac.drop_last());
        let held = if before == 0 {
            zero_mean()
        } else {
            ac[before - 1]
        };
        if ac.last().exceeds(held) {
            ac.len() as int
        } else {
            before
        }
    }
}

/// Whether `lag` is the first lag of strictly maximal autocorrelation, that
/// maximum being greater than zero; or 0 where every entry is zero.
pub open spec fn is_first_maximum(ac: Seq<LagCorrelation>, lag: int) -> bool {
    if lag == 0 {
        forall|j: int| 0 <= j < ac.len() ==> (#[trigger] ac[j]).pairs == 0
    } else {
        &&& 1 <= lag <= ac.len()
        &&& ac[lag - 1].pairs > 0
        &&& forall|j: int| 0 <= j < ac.len() ==> !(#[trigger] ac[j]).exceeds(ac[lag - 1])
        &&& forall|j: int| 0 <= j < lag - 1 ==> ac[lag - 1].exceeds(#[trigger] ac[j])
    }
}

/// Whether every entry is the mean of at least one term.
pub open spec fn all_proper(ac: Seq<LagCorrelation>) -> bool {
    forall|j: int| 0 <= j < ac.len() ==> (#[trigger] ac[j]).terms >= 1
}

proof fn lemma_exceeds_after_not_exceeded(a: LagCorrelation, b: LagCorrelation, c: LagCorrelation)
    requires
        a.terms >= 1,
        b.terms >= 1,
        c.terms >= 1,
        !a.exceeds(b),
        c.exceeds(b),
    ensures
        c.exceeds(a),
{
    let (ap, at) = (a.pairs as int, a.terms as int);
    let (bp, bt) = (b.pairs as int, b.terms as int);
    let (cp, ct) = (c.pairs as int, c.terms as int);
    assert(ap * bt <= bp * at);
    assert(bp * ct < cp * bt);
    assert(ap * ct < cp * at) by (nonlinear_arith)
        requires
            ap * bt <= bp * at,
            bp * ct < cp * bt,
            at >= 1,
            bt >= 1,
            ct >= 1,
            ap >= 0,
            bp >= 0,
            cp >= 0,
    {
        assert((ap * bt) * ct <= (bp * at) * ct);
        assert((bp * ct) * at < (cp * bt) * at);
        assert((ap * ct) * bt < (cp * at) * bt);
    }
}

proof fn lemma_exceeds_zero(a: LagCorrelation, z: LagCorrelation)
    requires
        z.pairs == 0,
        z.terms >= 1,
    ensures
        a.exceeds(z) == (a.pairs > 0),
        !z.exceeds(a),
{
    let (ap, at) = (a.pairs as int, a.terms as int);
    let (zp, zt) = (z.pairs as int, z.terms as int);
    assert(zp * at == 0) by (nonlinear_arith)
        requires
            zp == 0,
    {
    }
    assert((ap * zt > 0) == (ap > 0)) by (nonlinear_arith)
        requires
            zt >= 1,
            ap >= 0,
    {
    }
}

/// The scan selects the first lag of strictly maximal autocorrelation, and
/// lag 0 exactly where no entry is greater than zero.
pub proof fn lemma_dominant_lag_is_first_maximum(ac: Seq<LagCorrelation>)
    requires
        all_proper(ac),
    ensures
        is_first_maximum(ac, dominant_lag_of(ac)),
    decreases ac.len(),
{
    if ac.len() > 0 {
        let shorter = ac.drop_last();
        lemma_dominant_lag_is_first_maximum(shorter);
        let before = dominant_lag_of(shorter);
        let last = ac.last();
        assert forall|j: int| 0 <= j < shorter.len() implies shorter[j] == ac[j] by {}
        if before == 0 {
            if last.exceeds(zero_mean()) {
                lemma_exceeds_zero(last, zero_mean());
                assert forall|j: int| 0 <= j < ac.len() - 1 implies last.exceeds(
                    #[trigger] ac[j],
                ) by {
                    assert(shorter[j].pairs == 0);
                    lemma_exceeds_zero(last, ac[j]);
                }
                assert forall|j: int| 0 <= j < ac.len() implies !(#[trigger] ac[j]).exceeds(
                    last,
                ) by {
                    if j < ac.len() - 1 {
                        assert(shorter[j].pairs == 0);
                        lemma_exceeds_zero(last, ac[j]);
                    }
                }
            } else {
                lemma_exceeds_zero(last, zero_mean());
                assert forall|j: int| 0 <= j < ac.len() implies (#[trigger] ac[j]).pairs == 0 by {
                    if j < ac.len() - 1 {
                        assert(shorter[j].pairs == 0);
                    }
                }
            }
        } else {
            let held = ac[before - 1];
            assert(held == shorter[before - 1]);
            if last.exceeds(held) {
                assert(last.pairs > 0) by (nonlinear_arith)
                    requires
                        held.pairs * last.terms < last.pairs * held.terms,
                {
                }
                assert forall|j: int| 0 <= j < ac.len() - 1 implies last.exceeds(
                    #[trigger] ac[j],
                ) by {
                    assert(!shorter[j].exceeds(held));
                    lemma_exceeds_after_not_exceeded(ac[j], held, last);
                }
                assert forall|j: int| 0 <= j < ac.len() implies !(#[trigger] ac[j]).exceeds(
                    last,
                ) by {
                    if j < ac.len() - 1 {
                        assert(last.exceeds(ac[j]));
                    }
                }
            } else {
                assert forall|j: int| 0 <= j < ac.len() implies !(#[trigger] ac[j]).exceeds(
                    held,
                ) by {
                    if j < ac.len() - 1 {
                        assert(!shorter[j].exceeds(held));
                    }
                }
                assert forall|j: int| 0 <= j < before - 1 implies held.exceeds(
                    #[trigger] ac[j],
                ) by {
                    assert(held.exceeds(shorter[j]));
                }
            }
        }
    }
}

/// The lag with the strictly greatest autocorrelation among `ac`, the first
/// such lag on ties, or `None` where no entry is greater than zero. Entry
/// `k - 1` of `ac` belongs to lag `k`.
pub fn dominant_lag(ac: &Vec<LagCorrelation>) -> (r: Option<usize>)
    ensures
        match r {
            Some(lag) => lag >= 1 && lag == dominant_lag_of(ac@),
            None => dominant_lag_of(ac@) == 0,
        },
        all_proper(ac@) ==> is_first_maximum(ac@, dominant_lag_of(ac@)),
{
    let mut best_lag: usize = 0;
    let mut held = LagCorrelation { pairs: 0, terms: 1 };
    let mut i: usize = 0;
    assert(ac@.take(0).len() == 0);
    while i < ac.len()
        invariant
            i <= ac.len(),
            0 <= best_lag <= i,
            best_lag == dominant_lag_of(ac@.take(i as int)),
            held == if best_lag == 0 {
                zero_mean()
            } else {
                ac@[best_lag - 1]
            },
        decreases ac.len() - i,
    {
        let entry = ac[i];
        proof {
            let longer = ac@.take(i + 1);
            assert(longer.drop_last() =~= ac@.take(i as int));
            assert(longer.last() == entry);
            if best_lag > 0 {
                assert(longer[best_lag - 1] == ac@[best_lag - 1]);
            }
        }
        if entry.is_greater_than(&held) {
            held = entry;
            best_lag = i + 1;
        }
        i += 1;
    }
    proof {
        assert(ac@.take(i as int) =~= ac@);
        if all_proper(ac@) {
            lemma_dominant_lag_is_first_maximum(ac@);
        }
    }
    if best_lag == 0 {
        None
    } else {
        Some(best_lag)
    }
}

/// The recurrence cycle of `history` over `window`, in days: the lag of
/// strictly greatest autocorrelation of the occurrence indicator, the shortest
/// such lag on ties. `None` says that no cycle was detected, which leaves the
/// caller to assume `DEFAULT_PERIOD`. Fails with `InvalidRange` where the
/// window holds no day.
pub fn estimate_period(history: &Vec<CalendarDay>, window: &SamplingWindow) -> (r: Result<
    Option<usize>,
    ForecastError,
>)
    ensures
        r == estimated_period(day_numbers(history@), *window),
{
    let series = match occurrence_series(history, window) {
        Ok(series) => series,
        Err(e) => {
            return Err(e);
        },
    };
    let ac = autocorrelation(&series);
    proof {
        let expected = correlations_of(series@);
        assert(ac@ =~= expected) by {
            assert forall|j: int| 0 <= j < ac.len() implies ac@[j] == expected[j] by {
                assert(is_correlation_at(ac[j + 1 - 1], series@, j + 1));
            }
        }
    }
    Ok(dominant_lag(&ac))
}

/// The autocorrelation entry of `series` at `lag`.
pub open spec fn correlation_at(series: Seq<bool>, lag: int) -> LagCorrelation {
    LagCorrelation {
        pairs: pair_count(series, lag, series.len() - lag) as u64,
        terms: (series.len() - lag) as u64,
    }
}

/// The autocorrelation entries of `series`, for the lags from 1 to
/// `lag_count(series.len())`.
pub open spec fn correlations_of(series: Seq<bool>) -> Seq<LagCorrelation> {
    Seq::new(lag_count(series.len() as int) as nat, |j: int| correlation_at(series, j + 1))
}

/// What `estimate_period` returns for the day numbers `history` and `window`.
pub open spec fn estimated_period(history: Seq<int>, window: SamplingWindow) -> Result<
    Option<usize>,
    ForecastError,
> {
    if window.span() <= 0 {
        Err(ForecastError::InvalidRange)
    } else {
        let series = occurrence_indicator(history, window.first@, window.span());
        let lag = dominant_lag_of(correlations_of(series));
        if lag == 0 {
            Ok(None)
        } else {
            Ok(Some(lag as usize))
        }
    }
}

} // verus!
