//! The one-hot design matrix of a sampling window.
//!
//! Each day of the window gives a row, each category value a column. The kind
//! of day has a fixed vocabulary, the seven weekdays: a public holiday matches
//! none of them. Week of month and month have the values that occur in the
//! window, in ascending order.

use crate::calendar::month_of;
use crate::calendar::supported_day;
use crate::calendar::CalendarDay;
use crate::error::ForecastError;
use crate::features::day_type_of;
use crate::features::encode;
use crate::features::is_encoding_of;
use crate::features::week_of_month;
use crate::features::DayFeatures;
use crate::features::DayType;
use crate::holiday::HolidayLookup;
use crate::window::SamplingWindow;
use vstd::prelude::*;

verus! {

/// The greatest week of month there is.
pub const MAX_WEEK_OF_MONTH: u8 = 5;

/// The greatest month there is.
pub const MAX_MONTH: u8 = 12;

/// The category value that a column of the design matrix stands for.
#[derive(Clone, Copy, Debug, PartialEq, Eq, Structural)]
pub enum ColumnLabel {
    /// The kind of day.
    Day(DayType),
    /// The week of the month, from 1.
    Week(u8),
    /// The month, from 1.
    Month(u8),
}

/// Whether a day with `features` has the category value of `label`.
pub open spec fn label_selects(label: ColumnLabel, features: DayFeatures) -> bool {
    match label {
        ColumnLabel::Day(t) => t == features.day_type,
        ColumnLabel::Week(w) => w == features.week_of_month,
        ColumnLabel::Month(m) => m == features.month,
    }
}

/// Whether the day with number `day` has the category value of `label`.
pub open spec fn label_matches(label: ColumnLabel, day: int, holidays: Set<int>) -> bool {
    match label {
        ColumnLabel::Day(t) => t == day_type_of(day, holidays),
        ColumnLabel::Week(w) => w as int == week_of_month(day),
        ColumnLabel::Month(m) => m as int == month_of(day),
    }
}

/// The one-hot row of the day with number `day` under `labels`: entry `c` is
/// set exactly where the day has the category value of column `c`.
pub open spec fn encoded_row(labels: Seq<ColumnLabel>, day: int, holidays: Set<int>) -> Seq<bool> {
    Seq::new(labels.len(), |c: int| label_matches(labels[c], day, holidays))
}

impl ColumnLabel {
    /// Whether a day with `features` has the category value of this label.
    pub fn selects(&self, features: &DayFeatures) -> (r: bool)
        ensures
            r == label_selects(*self, *features),
    {
        match self {
            ColumnLabel::Day(t) => *t == features.day_type,
            ColumnLabel::Week(w) => *w == features.week_of_month,
            ColumnLabel::Month(m) => *m == features.month,
        }
    }
}

/// The one-hot row of a day with `features` under `labels`: entry `c` is set
/// exactly where the day has the category value of column `c`. A category
/// value that no column stands for sets nothing.
pub fn one_hot_row(labels: &Vec<ColumnLabel>, features: &DayFeatures) -> (row: Vec<bool>)
    ensures
        row.len() == labels.len(),
        forall|c: int| 0 <= c < labels.len() ==> row[c] == label_selects(labels[c], *features),
        forall|day: int, holidays: Set<int>|
            is_encoding_of(*features, day, holidays) ==> row@ == encoded_row(
                labels@,
                day,
                holidays,
            ),
{
    let mut row: Vec<bool> = Vec::new();
    let mut c: usize = 0;
    while c < labels.len()
        invariant
            c <= labels.len(),
            row.len() == c,
            forall|o: int| 0 <= o < c ==> row[o] == label_selects(labels[o], *features),
        decreases labels.len() - c,
    {
        row.push(labels[c].selects(features));
        c += 1;
    }
    assert forall|day: int, holidays: Set<int>|
        is_encoding_of(*features, day, holidays) implies row@ == encoded_row(
        labels@,
        day,
        holidays,
    ) by {
        assert(row@ =~= encoded_row(labels@, day, holidays));
    }
    row
}

/// The columns of the kind of day: the seven weekdays from Monday.
pub open spec fn weekday_labels() -> Seq<ColumnLabel> {
    seq![
        ColumnLabel::Day(DayType::Monday),
        ColumnLabel::Day(DayType::Tuesday),
        ColumnLabel::Day(DayType::Wednesday),
        ColumnLabel::Day(DayType::Thursday),
        ColumnLabel::Day(DayType::Friday),
        ColumnLabel::Day(DayType::Saturday),
        ColumnLabel::Day(DayType::Sunday),
    ]
}

/// The weeks of month that occur among the days from `first` to `last`.
pub open spec fn observed_weeks(first: int, last: int) -> Set<int> {
    Set::new(|w: int| exists|d: int| first <= d <= last && #[trigger] week_of_month(d) == w)
}

/// The months that occur among the days from `first` to `last`.
pub open spec fn observed_months(first: int, last: int) -> Set<int> {
    Set::new(|m: int| exists|d: int| first <= d <= last && #[trigger] month_of(d) == m)
}

/// The values from 1 to `upto` that are in `present`, in ascending order.
pub open spec fn ascending_members(present: Set<int>, upto: int) -> Seq<int>
    decreases upto,
{
    if upto <= 0 {
        Seq::empty()
    } else if present.contains(upto) {
        ascending_members(present, upto - 1).push(upto)
    } else {
        ascending_members(present, upto - 1)
    }
}

/// The columns of the weeks of month in `values`.
pub open spec fn week_labels(values: Seq<int>) -> Seq<ColumnLabel> {
    values.map_values(|w: int| ColumnLabel::Week(w as u8))
}

/// The columns of the months in `values`.
pub open spec fn month_labels(values: Seq<int>) -> Seq<ColumnLabel> {
    values.map_values(|m: int| ColumnLabel::Month(m as u8))
}

/// The columns of the design matrix of the window from `first` to `last`: the
/// seven weekdays, then the weeks of month that occur in the window, then the
/// months that occur in it, each in ascending order.
pub open spec fn design_labels(first: int, last: int) -> Seq<ColumnLabel> {
    weekday_labels() + week_labels(
        ascending_members(observed_weeks(first, last), MAX_WEEK_OF_MONTH as int),
    ) + month_labels(ascending_members(observed_months(first, last), MAX_MONTH as int))
}

/// Whether exactly one entry of `row` from `from` up to, not including, `to`
/// is set.
pub open spec fn exactly_one_set(row: Seq<bool>, from: int, to: int) -> bool {
    exists|c: int|
        from <= c < to && #[trigger] row[c] && forall|o: int|
            from <= o < to && #[trigger] row[o] ==> o == c
}

/// Whether no entry of `row` from `from` up to, not including, `to` is set.
pub open spec fn none_set(row: Seq<bool>, from: int, to: int) -> bool {
    forall|c: int| from <= c < to ==> !#[trigger] row[c]
}

/// Whether `row` is one-hot in each of its three blocks of columns: the kind
/// of day (all clear on a public holiday), the week of month and the month.
pub open spec fn is_one_hot(row: Seq<bool>, weeks: int, on_holiday: bool) -> bool {
    &&& if on_holiday {
        none_set(row, 0, 7)
    } else {
        exactly_one_set(row, 0, 7)
    }
    &&& exactly_one_set(row, 7, 7 + weeks)
    &&& exactly_one_set(row, 7 + weeks, row.len() as int)
}

/// The one-hot design matrix of a sampling window, with the category value
/// that each column stands for.
pub struct DesignMatrix {
    /// One row per day of the window, from the first day; one entry per column.
    pub rows: Vec<Vec<bool>>,
    /// The category value of each column.
    pub labels: Vec<ColumnLabel>,
}

impl DesignMatrix {
    /// Whether this is the design matrix of the window from `first` to `last`.
    pub open spec fn is_design_of(self, first: int, last: int, holidays: Set<int>) -> bool {
        &&& self.labels@ == design_labels(first, last)
        &&& self.rows.len() == last - first + 1
        &&& forall|r: int|
            0 <= r < self.rows.len() ==> (#[trigger] self.rows[r])@ == encoded_row(
                self.labels@,
                first + r,
                holidays,
            )
    }

    /// The number of week-of-month columns.
    pub open spec fn week_columns(first: int, last: int) -> int {
        ascending_members(observed_weeks(first, last), MAX_WEEK_OF_MONTH as int).len() as int
    }
}

proof fn lemma_ascending_members(present: Set<int>, upto: int)
    requires
        0 <= upto,
    ensures
        ascending_members(present, upto).len() <= upto,
        forall|i: int|
            0 <= i < ascending_members(present, upto).len() ==> 1 <= (#[trigger] ascending_members(
                present,
                upto,
            )[i]) <= upto && present.contains(ascending_members(present, upto)[i]),
        forall|i: int, j: int|
            0 <= i < j < ascending_members(present, upto).len() ==> ascending_members(
                present,
                upto,
            )[i] < ascending_members(present, upto)[j],
        forall|v: int|
            1 <= v <= upto && present.contains(v) ==> ascending_members(present, upto).contains(v),
    decreases upto,
{
    if upto > 0 {
        lemma_ascending_members(present, upto - 1);
        let shorter = ascending_members(present, upto - 1);
        let all = ascending_members(present, upto);
        if present.contains(upto) {
            assert(all == shorter.push(upto));
            assert(all[shorter.len() as int] == upto);
            assert forall|v: int| 1 <= v <= upto && present.contains(v) implies all.contains(
                v,
            ) by {
                if v < upto {
                    let i = choose|i: int| 0 <= i < shorter.len() && shorter[i] == v;
                    assert(all[i] == v);
                }
            }
        }
    }
}

proof fn lemma_weekday_block(row: Seq<bool>, labels: Seq<ColumnLabel>, day: int, holidays: Set<int>)
    requires
        labels.len() >= 7,
        labels.subrange(0, 7) == weekday_labels(),
        row == encoded_row(labels, day, holidays),
    ensures
        holidays.contains(day) ==> none_set(row, 0, 7),
        !holidays.contains(day) ==> exactly_one_set(row, 0, 7),
{
    let fixed = weekday_labels();
    assert forall|c: int| 0 <= c < 7 implies labels[c] == fixed[c] by {
        assert(labels.subrange(0, 7)[c] == labels[c]);
    }
    if !holidays.contains(day) {
        let t = day_type_of(day, holidays);
        let c: int = match t {
            DayType::Monday => 0,
            DayType::Tuesday => 1,
            DayType::Wednesday => 2,
            DayType::Thursday => 3,
            DayType::Friday => 4,
            DayType::Saturday => 5,
            _ => 6,
        };
        assert(labels[c] == fixed[c]);
        assert(row[c]);
        assert forall|o: int| 0 <= o < 7 && #[trigger] row[o] implies o == c by {
            assert(labels[o] == fixed[o]);
        }
    } else {
        assert forall|c: int| 0 <= c < 7 implies !#[trigger] row[c] by {
            assert(labels[c] == fixed[c]);
        }
    }
}

proof fn lemma_week_block(
    row: Seq<bool>,
    labels: Seq<ColumnLabel>,
    from: int,
    values: Seq<int>,
    day: int,
    holidays: Set<int>,
)
    requires
        0 <= from,
        from + values.len() <= labels.len(),
        labels.subrange(from, from + values.len()) == week_labels(values),
        row == encoded_row(labels, day, holidays),
        forall|i: int| 0 <= i < values.len() ==> 1 <= #[trigger] values[i] <= 255,
        forall|i: int, j: int| 0 <= i < j < values.len() ==> values[i] < values[j],
        values.contains(week_of_month(day)),
    ensures
        exactly_one_set(row, from, from + values.len()),
{
    let block = week_labels(values);
    assert forall|i: int| 0 <= i < values.len() implies labels[from + i] == ColumnLabel::Week(
        values[i] as u8,
    ) by {
        assert(labels.subrange(from, from + values.len())[i] == labels[from + i]);
        assert(block[i] == ColumnLabel::Week(values[i] as u8));
    }
    let i = choose|i: int| 0 <= i < values.len() && values[i] == week_of_month(day);
    let c = from + i;
    assert(labels[from + i] == ColumnLabel::Week(values[i] as u8));
    assert(row[c]);
    assert forall|o: int| from <= o < from + values.len() && #[trigger] row[o] implies o == c by {
        let k = o - from;
        assert(labels[from + k] == ColumnLabel::Week(values[k] as u8));
        assert(values[k] == week_of_month(day));
        if k < i {
            assert(values[k] < values[i]);
        } else if i < k {
            assert(values[i] < values[k]);
        }
    }
}

proof fn lemma_month_block(
    row: Seq<bool>,
    labels: Seq<ColumnLabel>,
    from: int,
    values: Seq<int>,
    day: int,
    holidays: Set<int>,
)
    requires
        0 <= from,
        from + values.len() <= labels.len(),
        labels.subrange(from, from + values.len()) == month_labels(values),
        row == encoded_row(labels, day, holidays),
        forall|i: int| 0 <= i < values.len() ==> 1 <= #[trigger] values[i] <= 255,
        forall|i: int, j: int| 0 <= i < j < values.len() ==> values[i] < values[j],
        values.contains(month_of(day)),
    ensures
        exactly_one_set(row, from, from + values.len()),
{
    let block = month_labels(values);
    assert forall|i: int| 0 <= i < values.len() implies labels[from + i] == ColumnLabel::Month(
        values[i] as u8,
    ) by {
        assert(labels.subrange(from, from + values.len())[i] == labels[from + i]);
        assert(block[i] == ColumnLabel::Month(values[i] as u8));
    }
    let i = choose|i: int| 0 <= i < values.len() && values[i] == month_of(day);
    let c = from + i;
    assert(labels[from + i] == ColumnLabel::Month(values[i] as u8));
    assert(row[c]);
    assert forall|o: int| from <= o < from + values.len() && #[trigger] row[o] implies o == c by {
        let k = o - from;
        assert(labels[from + k] == ColumnLabel::Month(values[k] as u8));
        assert(values[k] == month_of(day));
        if k < i {
            assert(values[k] < values[i]);
        } else if i < k {
            assert(values[i] < values[k]);
        }
    }
}

/// A row of the design matrix is one-hot in each block of columns, for every
/// day of the window whose week of month and month are in their calendar
/// ranges: one weekday column is set, or none on a public holiday; one week
/// column; one month column.
pub proof fn lemma_design_row_is_one_hot(first: int, last: int, day: int, holidays: Set<int>)
    requires
        first <= day <= last,
        1 <= week_of_month(day) <= MAX_WEEK_OF_MONTH,
        1 <= month_of(day) <= MAX_MONTH,
    ensures
        is_one_hot(
            encoded_row(design_labels(first, last), day, holidays),
            DesignMatrix::week_columns(first, last),
            holidays.contains(day),
        ),
{
    let labels = design_labels(first, last);
    let row = encoded_row(labels, day, holidays);
    let weeks = ascending_members(observed_weeks(first, last), MAX_WEEK_OF_MONTH as int);
    let months = ascending_members(observed_months(first, last), MAX_MONTH as int);
    lemma_ascending_members(observed_weeks(first, last), MAX_WEEK_OF_MONTH as int);
    lemma_ascending_members(observed_months(first, last), MAX_MONTH as int);
    let w = weeks.len() as int;
    let m = months.len() as int;
    assert(labels.subrange(0, 7) =~= weekday_labels());
    assert(labels.subrange(7, 7 + w) =~= week_labels(weeks));
    assert(labels.subrange(7 + w, 7 + w + m) =~= month_labels(months));
    assert(observed_weeks(first, last).contains(week_of_month(day)));
    assert(observed_months(first, last).contains(month_of(day)));
    lemma_weekday_block(row, labels, day, holidays);
    lemma_week_block(row, labels, 7, weeks, day, holidays);
    lemma_month_block(row, labels, 7 + w, months, day, holidays);
}

proof fn lemma_observed_weeks_one_more(first: int, last: int, w: int)
    ensures
        observed_weeks(first, last + 1).contains(w) == (observed_weeks(first, last).contains(w) || (
        first <= last + 1 && week_of_month(last + 1) == w)),
{
    if observed_weeks(first, last).contains(w) {
        let d = choose|d: int| first <= d <= last && #[trigger] week_of_month(d) == w;
        assert(first <= d <= last + 1 && week_of_month(d) == w);
    }
    if first <= last + 1 && week_of_month(last + 1) == w {
        assert(observed_weeks(first, last + 1).contains(w));
    }
    if observed_weeks(first, last + 1).contains(w) {
        let d = choose|d: int| first <= d <= last + 1 && #[trigger] week_of_month(d) == w;
        if d <= last {
            assert(first <= d <= last && week_of_month(d) == w);
        }
    }
}

proof fn lemma_observed_months_one_more(first: int, last: int, m: int)
    ensures
        observed_months(first, last + 1).contains(m) == (observed_months(first, last).contains(m)
            || (first <= last + 1 && month_of(last + 1) == m)),
{
    if observed_months(first, last).contains(m) {
        let d = choose|d: int| first <= d <= last && #[trigger] month_of(d) == m;
        assert(first <= d <= last + 1 && month_of(d) == m);
    }
    if first <= last + 1 && month_of(last + 1) == m {
        assert(observed_months(first, last + 1).contains(m));
    }
    if observed_months(first, last + 1).contains(m) {
        let d = choose|d: int| first <= d <= last + 1 && #[trigger] month_of(d) == m;
        if d <= last {
            assert(first <= d <= last && month_of(d) == m);
        }
    }
}

/// The features of each day of a window of `len` days from `first`, with the
/// weeks of month and the months that occur among them: entry `v` of a list of
/// flags says whether the value `v` occurs.
fn survey_window(first: CalendarDay, len: usize, holidays: &HolidayLookup) -> (r: (
    Vec<DayFeatures>,
    Vec<bool>,
    Vec<bool>,
))
    requires
        len >= 1,
        supported_day(first@ + len - 1),
    ensures
        r.0.len() == len,
        forall|i: int|
            0 <= i < len ==> is_encoding_of(#[trigger] r.0[i], first@ + i, holidays@) && 1
                <= week_of_month(first@ + i) <= MAX_WEEK_OF_MONTH && 1 <= month_of(first@ + i)
                <= MAX_MONTH,
        r.1.len() == MAX_WEEK_OF_MONTH + 1,
        r.2.len() == MAX_MONTH + 1,
        forall|w: int|
            1 <= w <= MAX_WEEK_OF_MONTH ==> #[trigger] r.1[w] == observed_weeks(
                first@,
                first@ + len - 1,
            ).contains(w),
        forall|m: int|
            1 <= m <= MAX_MONTH ==> #[trigger] r.2[m] == observed_months(
                first@,
                first@ + len - 1,
            ).contains(m),
{
    let start: i32 = first.day_number();
    let mut features: Vec<DayFeatures> = Vec::new();
    let mut weeks: Vec<bool> = vec![false; MAX_WEEK_OF_MONTH as usize + 1];
    let mut months: Vec<bool> = vec![false; MAX_MONTH as usize + 1];
    let mut k: usize = 0;
    while k < len
        invariant
            k <= len,
            start == first@,
            supported_day(start as int),
            supported_day(start + len - 1),
            features.len() == k,
            forall|i: int|
                0 <= i < k ==> is_encoding_of(#[trigger] features[i], start + i, holidays@) && 1
                    <= week_of_month(start + i) <= MAX_WEEK_OF_MONTH && 1 <= month_of(start + i)
                    <= MAX_MONTH,
            weeks.len() == MAX_WEEK_OF_MONTH + 1,
            months.len() == MAX_MONTH + 1,
            forall|w: int|
                1 <= w <= MAX_WEEK_OF_MONTH ==> #[trigger] weeks[w] == observed_weeks(
                    start as int,
                    start + k - 1,
                ).contains(w),
            forall|m: int|
                1 <= m <= MAX_MONTH ==> #[trigger] months[m] == observed_months(
                    start as int,
                    start + k - 1,
                ).contains(m),
        decreases len - k,
    {
        let number: i32 = start + k as i32;
        let day = CalendarDay::from_day_number(number).unwrap();
        let found = encode(day, holidays);
        weeks.set(found.week_of_month as usize, true);
        months.set(found.month as usize, true);
        features.push(found);
        proof {
            assert forall|w: int| 1 <= w <= MAX_WEEK_OF_MONTH implies #[trigger] weeks[w]
                == observed_weeks(start as int, start + k).contains(w) by {
                lemma_observed_weeks_one_more(start as int, start + k - 1, w);
            }
            assert forall|m: int| 1 <= m <= MAX_MONTH implies #[trigger] months[m]
                == observed_months(start as int, start + k).contains(m) by {
                lemma_observed_months_one_more(start as int, start + k - 1, m);
            }
        }
        k += 1;
    }
    (features, weeks, months)
}

/// The columns of a design matrix: the seven weekdays, then the weeks of month
/// and the months that `weeks` and `months` flag, each in ascending order.
fn collect_labels(
    weeks: &Vec<bool>,
    months: &Vec<bool>,
    Ghost(seen_weeks): Ghost<Set<int>>,
    Ghost(seen_months): Ghost<Set<int>>,
) -> (labels: Vec<ColumnLabel>)
    requires
        weeks.len() == MAX_WEEK_OF_MONTH + 1,
        months.len() == MAX_MONTH + 1,
        forall|w: int| 1 <= w <= MAX_WEEK_OF_MONTH ==> #[trigger] weeks[w] == seen_weeks.contains(w),
        forall|m: int| 1 <= m <= MAX_MONTH ==> #[trigger] months[m] == seen_months.contains(m),
    ensures
        labels@ == weekday_labels() + week_labels(
            ascending_members(seen_weeks, MAX_WEEK_OF_MONTH as int),
        ) + month_labels(ascending_members(seen_months, MAX_MONTH as int)),
{
    let mut labels: Vec<ColumnLabel> = Vec::new();
    labels.push(ColumnLabel::Day(DayType::Monday));
    labels.push(ColumnLabel::Day(DayType::Tuesday));
    labels.push(ColumnLabel::Day(DayType::Wednesday));
    labels.push(ColumnLabel::Day(DayType::Thursday));
    labels.push(ColumnLabel::Day(DayType::Friday));
    labels.push(ColumnLabel::Day(DayType::Saturday));
    labels.push(ColumnLabel::Day(DayType::Sunday));
    assert(labels@ =~= weekday_labels());
    let mut w: u8 = 1;
    while w <= MAX_WEEK_OF_MONTH
        invariant
            1 <= w <= MAX_WEEK_OF_MONTH + 1,
            weeks.len() == MAX_WEEK_OF_MONTH + 1,
            forall|v: int|
                1 <= v <= MAX_WEEK_OF_MONTH ==> #[trigger] weeks[v] == seen_weeks.contains(v),
            labels@ == weekday_labels() + week_labels(ascending_members(seen_weeks, w - 1)),
        decreases MAX_WEEK_OF_MONTH + 1 - w,
    {
        if weeks[w as usize] {
            labels.push(ColumnLabel::Week(w));
            assert(labels@ =~= weekday_labels() + week_labels(
                ascending_members(seen_weeks, w as int),
            ));
        }
        w += 1;
    }
    let ghost fixed = labels@;
    let mut m: u8 = 1;
    while m <= MAX_MONTH
        invariant
            1 <= m <= MAX_MONTH + 1,
            months.len() == MAX_MONTH + 1,
            forall|v: int| 1 <= v <= MAX_MONTH ==> #[trigger] months[v] == seen_months.contains(v),
            labels@ == fixed + month_labels(ascending_members(seen_months, m - 1)),
        decreases MAX_MONTH + 1 - m,
    {
        if months[m as usize] {
            labels.push(ColumnLabel::Month(m));
            assert(labels@ =~= fixed + month_labels(ascending_members(seen_months, m as int)));
        }
        m += 1;
    }
    labels
}

/// The columns of the design matrix of `window`: the seven weekdays, then the
/// weeks of month that occur in the window, then the months that occur in it,
/// each in ascending order. Fails with `InvalidRange` where the window holds
/// no day.
pub fn design_columns(window: &SamplingWindow) -> (r: Result<Vec<ColumnLabel>, ForecastError>)
    ensures
        match r {
            Ok(labels) => window.span() >= 1 && labels@ == design_labels(
                window.first@,
                window.last@,
            ),
            Err(e) => e == ForecastError::InvalidRange && window.span() <= 0,
        },
{
    let len: usize = match window.day_count() {
        Ok(n) => n,
        Err(e) => {
            return Err(e);
        },
    };
    let (_, weeks, months) = survey_window(window.first, len, &HolidayLookup::NoHolidays);
    Ok(
        collect_labels(
            &weeks,
            &months,
            Ghost(observed_weeks(window.first@, window.last@)),
            Ghost(observed_months(window.first@, window.last@)),
        ),
    )
}

/// The design matrix of `window`: one row per day, one column per category
/// value, an entry set exactly where the day has the value. The columns are the
/// seven weekdays, then the weeks of month that occur in the window, then the
/// months that occur in it, each in ascending order. Every row is one-hot in
/// each of these three blocks, but for the weekday block of a public holiday,
/// which is clear.
///
/// Fails with `InvalidRange` where the window holds no day.
pub fn build_design_matrix(window: &SamplingWindow, holidays: &HolidayLookup) -> (r: Result<
    DesignMatrix,
    ForecastError,
>)
    ensures
        match r {
            Ok(matrix) => {
                &&& window.span() >= 1
                &&& matrix.is_design_of(window.first@, window.last@, holidays@)
                &&& forall|i: int|
                    0 <= i < matrix.rows.len() ==> is_one_hot(
                        (#[trigger] matrix.rows[i])@,
                        DesignMatrix::week_columns(window.first@, window.last@),
                        holidays@.contains(window.first@ + i),
                    )
            },
            Err(e) => e == ForecastError::InvalidRange && window.span() <= 0,
        },
{
    let len: usize = match window.day_count() {
        Ok(n) => n,
        Err(e) => {
            return Err(e);
        },
    };
    let ghost first = window.first@;
    let ghost last = window.last@;
    let (features, weeks, months) = survey_window(window.first, len, holidays);
    let labels = collect_labels(
        &weeks,
        &months,
        Ghost(observed_weeks(first, last)),
        Ghost(observed_months(first, last)),
    );
    assert(labels@ == design_labels(first, last));
    let mut rows: Vec<Vec<bool>> = Vec::new();
    let mut i: usize = 0;
    while i < len
        invariant
            i <= len,
            len == last - first + 1,
            features.len() == len,
            rows.len() == i,
            labels@ == design_labels(first, last),
            forall|o: int|
                0 <= o < len ==> is_encoding_of(#[trigger] features[o], first + o, holidays@) && 1
                    <= week_of_month(first + o) <= MAX_WEEK_OF_MONTH && 1 <= month_of(first + o)
                    <= MAX_MONTH,
            forall|o: int|
                0 <= o < i ==> (#[trigger] rows[o])@ == encoded_row(labels@, first + o, holidays@),
            forall|o: int|
                0 <= o < i ==> is_one_hot(
                    (#[trigger] rows[o])@,
                    DesignMatrix::week_columns(first, last),
                    holidays@.contains(first + o),
                ),
        decreases len - i,
    {
        let row = one_hot_row(&labels, &features[i]);
        proof {
            assert(is_encoding_of(features[i as int], first + i, holidays@));
            lemma_design_row_is_one_hot(first, last, first + i, holidays@);
        }
        rows.push(row);
        i += 1;
    }
    Ok(DesignMatrix { rows, labels })
}

} // verus!
