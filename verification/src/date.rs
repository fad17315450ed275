//! Proleptic-Gregorian calendar arithmetic.
//!
//! A date is a plain `(year, month, day)` triple.  Dates are counted with a
//! serial day number (days elapsed since 1000-01-01), which makes day spans
//! and term rollover exact integer arithmetic.

use vstd::prelude::*;

use crate::config::TermType;

verus! {

/// First year a deposit date may fall in.
pub const MIN_YEAR: u32 = 1000;

/// Last year a deposit date may fall in.
pub const MAX_YEAR: u32 = 9999;

/// A calendar date as plain year / month / day fields.
///
/// `month` is 1-based (1 = January); `day` is 1-based.  Whether the triple
/// denotes a real calendar day is expressed by [`Date::is_valid`]; term
/// rollover may pass transiently through years above [`MAX_YEAR`], which
/// [`Date::is_valid_extended`] admits.
#[derive(Clone, Copy, PartialEq, Eq, Structural, Debug, Hash)]
pub struct Date {
    pub year: u32,
    pub month: u32,
    pub day: u32,
}

/// A year is a leap year iff it is divisible by 4 but not by 100, or by 400.
pub open spec fn is_leap_year(y: int) -> bool {
    (y % 4 == 0 && y % 100 != 0) || y % 400 == 0
}

/// Number of days in a month of a given year.
pub open spec fn days_in_month_spec(y: int, m: int) -> int {
    if m == 2 {
        if is_leap_year(y) { 29 } else { 28 }
    } else if m == 4 || m == 6 || m == 9 || m == 11 {
        30
    } else {
        31
    }
}

/// Number of days in a year.
pub open spec fn days_in_year_spec(y: int) -> int {
    if is_leap_year(y) { 366 } else { 365 }
}

impl Date {
    /// The triple denotes a real calendar day in some year at or after
    /// [`MIN_YEAR`]; the year is not bounded above.
    pub open spec fn is_valid_extended(self) -> bool {
        &&& MIN_YEAR <= self.year
        &&& 1 <= self.month <= 12
        &&& 1 <= self.day <= days_in_month_spec(self.year as int, self.month as int)
    }

    /// The triple denotes a real calendar day within the supported year range.
    pub open spec fn is_valid(self) -> bool {
        self.is_valid_extended() && self.year <= MAX_YEAR
    }
}

/// Days of the year that precede month `m`, i.e. the number of days from
/// January 1st to the last day of month `m - 1`.
pub open spec fn days_before_month_spec(y: int, m: int) -> int
    decreases m,
{
    if m <= 1 {
        0
    } else {
        days_before_month_spec(y, m - 1) + days_in_month_spec(y, m - 1)
    }
}

/// Days that precede January 1st of year `y`, counted from
/// 1000-01-01 (the first representable day, which has serial number 0).
pub open spec fn days_before_year_spec(y: int) -> int
    decreases y,
{
    if y <= MIN_YEAR {
        0
    } else {
        days_before_year_spec(y - 1) + days_in_year_spec(y - 1)
    }
}

/// Serial day number of a date: days elapsed since 1000-01-01.
pub open spec fn day_number_spec(d: Date) -> int {
    days_before_year_spec(d.year as int) + days_before_month_spec(d.year as int, d.month as int)
        + d.day - 1
}

/// A whole year's months sum up to the year's length.
pub proof fn lemma_days_before_month_full_year(y: int)
    ensures
        days_before_month_spec(y, 13) == days_in_year_spec(y),
{
    reveal_with_fuel(days_before_month_spec, 13);
}

/// `days_before_month_spec` grows with the month.
pub proof fn lemma_days_before_month_monotone(y: int, m1: int, m2: int)
    requires
        m1 <= m2,
    ensures
        days_before_month_spec(y, m1) <= days_before_month_spec(y, m2),
    decreases m2 - m1,
{
    if m1 < m2 {
        lemma_days_before_month_monotone(y, m1, m2 - 1);
    }
}

/// `days_before_year_spec` grows with the year.
pub proof fn lemma_days_before_year_monotone(y1: int, y2: int)
    requires
        y1 <= y2,
    ensures
        days_before_year_spec(y1) <= days_before_year_spec(y2),
    decreases y2 - y1,
{
    if y1 < y2 {
        lemma_days_before_year_monotone(y1, y2 - 1);
    }
}

/// Every day of a valid date falls between the year's first day and the next
/// year's first day.
pub proof fn lemma_day_number_within_year(d: Date)
    requires
        d.is_valid_extended(),
    ensures
        days_before_year_spec(d.year as int) <= day_number_spec(d),
        day_number_spec(d) < days_before_year_spec(d.year + 1),
{
    let y = d.year as int;
    let m = d.month as int;
    assert(days_before_month_spec(y, 1) == 0);
    lemma_days_before_month_monotone(y, 1, m);
    assert(days_before_month_spec(y, m) + days_in_month_spec(y, m)
        == days_before_month_spec(y, m + 1));
    lemma_days_before_month_monotone(y, m + 1, 13);
    lemma_days_before_month_full_year(y);
    assert(days_before_year_spec(y + 1) == days_before_year_spec(y) + days_in_year_spec(y));
}

/// A date that does not fall after some in-range date is itself in range.
pub proof fn lemma_bounded_date_valid(end: Date, bound: Date)
    requires
        end.is_valid_extended(),
        bound.is_valid(),
        day_number_spec(end) <= day_number_spec(bound),
    ensures
        end.is_valid(),
{
    if end.year > MAX_YEAR {
        lemma_day_number_within_year(end);
        lemma_day_number_within_year(bound);
        lemma_days_before_year_monotone(bound.year + 1, end.year as int);
    }
}

/// Chronological order of date triples: `a` names an earlier calendar day
/// than `b`.
pub open spec fn date_lt(a: Date, b: Date) -> bool {
    ||| a.year < b.year
    ||| (a.year == b.year && a.month < b.month)
    ||| (a.year == b.year && a.month == b.month && a.day < b.day)
}

/// The serial day number orders dates exactly as the calendar does.
pub proof fn lemma_day_number_strictly_monotone(a: Date, b: Date)
    requires
        a.is_valid_extended(),
        b.is_valid_extended(),
        date_lt(a, b),
    ensures
        day_number_spec(a) < day_number_spec(b),
{
    let (ya, ma) = (a.year as int, a.month as int);
    let (yb, mb) = (b.year as int, b.month as int);
    if ya < yb {
        lemma_day_number_within_year(a);
        lemma_day_number_within_year(b);
        lemma_days_before_year_monotone(ya + 1, yb);
    } else if ma < mb {
        assert(days_before_month_spec(ya, ma) + days_in_month_spec(ya, ma)
            == days_before_month_spec(ya, ma + 1));
        lemma_days_before_month_monotone(ya, ma + 1, mb);
    }
}

/// Distinct valid dates have distinct day numbers, ordered chronologically;
/// equal day numbers mean the same date.
pub proof fn lemma_day_number_order(a: Date, b: Date)
    requires
        a.is_valid_extended(),
        b.is_valid_extended(),
    ensures
        day_number_spec(a) < day_number_spec(b) <==> date_lt(a, b),
        day_number_spec(a) == day_number_spec(b) <==> a == b,
{
    if date_lt(a, b) {
        lemma_day_number_strictly_monotone(a, b);
    }
    if date_lt(b, a) {
        lemma_day_number_strictly_monotone(b, a);
    }
}

/// Days in the given month, as executable code.
pub fn days_in_month(y: u32, m: u32) -> (r: u32)
    requires
        1 <= m <= 12,
    ensures
        r == days_in_month_spec(y as int, m as int),
{
    if m == 2 {
        if (y % 4 == 0 && y % 100 != 0) || y % 400 == 0 {
            29
        } else {
            28
        }
    } else if m == 4 || m == 6 || m == 9 || m == 11 {
        30
    } else {
        31
    }
}

/// Serial day number of a valid date, as executable code.
///
/// The bound `3_300_000` comfortably covers every representable day
/// (years up to a little past [`MAX_YEAR`], for transient rollover results).
pub fn day_number(d: &Date) -> (n: u32)
    requires
        d.is_valid_extended(),
        d.year <= MAX_YEAR + 256,
    ensures
        n as int == day_number_spec(*d),
        n < 3_400_000,
{
    let mut acc: u32 = 0;
    let mut yy: u32 = MIN_YEAR;
    while yy < d.year
        invariant
            MIN_YEAR <= yy <= d.year <= MAX_YEAR + 256,
            acc as int == days_before_year_spec(yy as int),
            acc <= (yy - MIN_YEAR) * 366,
        decreases d.year - yy,
    {
        let diy: u32 = if (yy % 4 == 0 && yy % 100 != 0) || yy % 400 == 0 {
            366
        } else {
            365
        };
        acc = acc + diy;
        yy = yy + 1;
    }
    let mut mm: u32 = 1;
    while mm < d.month
        invariant
            1 <= mm <= d.month,
            d.is_valid_extended(),
            acc as int == days_before_year_spec(d.year as int) + days_before_month_spec(
                d.year as int,
                mm as int,
            ),
            acc <= 3_387_330 + (mm - 1) * 31,
        decreases d.month - mm,
    {
        acc = acc + days_in_month(d.year, mm);
        mm = mm + 1;
    }
    acc + (d.day - 1)
}

/// The calendar day after `d`.
pub open spec fn next_day_spec(d: Date) -> Date {
    if d.day < days_in_month_spec(d.year as int, d.month as int) {
        Date { year: d.year, month: d.month, day: (d.day + 1) as u32 }
    } else if d.month < 12 {
        Date { year: d.year, month: (d.month + 1) as u32, day: 1 }
    } else {
        Date { year: (d.year + 1) as u32, month: 1, day: 1 }
    }
}

/// The calendar day `k` days after `d`.
pub open spec fn plus_days_spec(d: Date, k: nat) -> Date
    decreases k,
{
    if k == 0 {
        d
    } else {
        plus_days_spec(next_day_spec(d), (k - 1) as nat)
    }
}

/// Advancing one day is valid and moves the day number up by one.
pub proof fn lemma_next_day(d: Date)
    requires
        d.is_valid_extended(),
        d.year < 0xFFFF_FFFF,
    ensures
        next_day_spec(d).is_valid_extended(),
        next_day_spec(d).year <= d.year + 1,
        day_number_spec(next_day_spec(d)) == day_number_spec(d) + 1,
{
    let y = d.year as int;
    let m = d.month as int;
    if d.day < days_in_month_spec(y, m) {
    } else if d.month < 12 {
        assert(days_before_month_spec(y, m + 1) == days_before_month_spec(y, m)
            + days_in_month_spec(y, m));
    } else {
        lemma_days_before_month_full_year(y);
        assert(days_before_month_spec(y, 13) == days_before_month_spec(y, 12)
            + days_in_month_spec(y, 12));
        assert(days_before_year_spec(y + 1) == days_before_year_spec(y) + days_in_year_spec(y));
    }
}

/// Advancing `k` days is valid and moves the day number up by `k`.
pub proof fn lemma_plus_days(d: Date, k: nat)
    requires
        d.is_valid_extended(),
        d.year + k < 0xFFFF_FFFF,
    ensures
        plus_days_spec(d, k).is_valid_extended(),
        plus_days_spec(d, k).year <= d.year + k,
        day_number_spec(plus_days_spec(d, k)) == day_number_spec(d) + k,
    decreases k,
{
    if k > 0 {
        lemma_next_day(d);
        lemma_plus_days(next_day_spec(d), (k - 1) as nat);
    }
}

/// One term of `term` months after `d`: the month index moves forward by
/// `term`, and the day of month is clamped to the target month's length.
pub open spec fn month_advance_spec(d: Date, term: int) -> Date {
    let t = d.month + term - 1;
    let y2 = d.year + t / 12;
    let m2 = t % 12 + 1;
    let md = days_in_month_spec(y2, m2);
    Date { year: y2 as u32, month: m2 as u32, day: (if d.day <= md { d.day as int } else { md }) as u32 }
}

/// One term of `term` years after `d`: the year moves forward by `term`, the
/// month is kept, and the day of month is clamped to the target month's
/// length.
pub open spec fn year_advance_spec(d: Date, term: int) -> Date {
    let y2 = d.year + term;
    let md = days_in_month_spec(y2, d.month as int);
    Date { year: y2 as u32, month: d.month, day: (if d.day <= md { d.day as int } else { md }) as u32 }
}

/// The date one term after `d`, by the product's term unit.
pub open spec fn advance_spec(d: Date, unit: crate::config::TermType, term: int) -> Date {
    match unit {
        crate::config::TermType::D => plus_days_spec(d, term as nat),
        crate::config::TermType::M => month_advance_spec(d, term),
        crate::config::TermType::Y => year_advance_spec(d, term),
    }
}

/// A whole positive term always lands on a valid later calendar day.
pub proof fn lemma_advance_increases(d: Date, unit: crate::config::TermType, term: int)
    requires
        d.is_valid(),
        1 <= term <= 255,
    ensures
        advance_spec(d, unit, term).is_valid_extended(),
        advance_spec(d, unit, term).year <= MAX_YEAR + 256,
        day_number_spec(advance_spec(d, unit, term)) > day_number_spec(d),
{
    let r = advance_spec(d, unit, term);
    match unit {
        crate::config::TermType::D => {
            lemma_plus_days(d, term as nat);
        },
        crate::config::TermType::M => {
            let t = d.month + term - 1;
            assert(t >= d.month);
            assert(t / 12 >= 0 && t / 12 <= 22 && t % 12 + 1 >= 1 && t % 12 + 1 <= 12)
                by (nonlinear_arith)
                requires 1 <= t <= 266;
            assert(r.is_valid_extended());
            if t <= 11 {
                assert(t / 12 == 0) by (nonlinear_arith)
                    requires 1 <= t <= 11;
                assert(r.month > d.month);
            } else {
                assert(t / 12 >= 1) by (nonlinear_arith)
                    requires t >= 12;
                assert(r.year > d.year);
            }
            assert(date_lt(d, r));
            lemma_day_number_strictly_monotone(d, r);
        },
        crate::config::TermType::Y => {
            assert(r.is_valid_extended());
            assert(date_lt(d, r));
            lemma_day_number_strictly_monotone(d, r);
        },
    }
}

/// The calendar day after `d`, as executable code.
pub fn next_day(d: &Date) -> (r: Date)
    requires
        d.is_valid_extended(),
        d.year <= MAX_YEAR + 300,
    ensures
        r == next_day_spec(*d),
{
    let md = days_in_month(d.year, d.month);
    if d.day < md {
        Date { year: d.year, month: d.month, day: d.day + 1 }
    } else if d.month < 12 {
        Date { year: d.year, month: d.month + 1, day: 1 }
    } else {
        Date { year: d.year + 1, month: 1, day: 1 }
    }
}

/// The date one term after `d`, by the product's term unit: `term` whole
/// days, months or years, with the day of month clamped to the target
/// month's length for month and year terms.
pub fn advance(d: &Date, unit: TermType, term: u8) -> (r: Date)
    requires
        d.is_valid(),
        1 <= term,
    ensures
        r == advance_spec(*d, unit, term as int),
        r.is_valid_extended(),
        r.year <= MAX_YEAR + 256,
        day_number_spec(r) > day_number_spec(*d),
{
    proof {
        lemma_advance_increases(*d, unit, term as int);
    }
    match unit {
        TermType::D => {
            let mut cur: Date = *d;
            let mut i: u8 = 0;
            while i < term
                invariant
                    0 <= i <= term,
                    d.is_valid(),
                    cur.is_valid_extended(),
                    cur.year <= d.year + i,
                    plus_days_spec(cur, (term - i) as nat) == plus_days_spec(*d, term as nat),
                decreases term - i,
            {
                proof {
                    lemma_next_day(cur);
                }
                cur = next_day(&cur);
                i = i + 1;
            }
            cur
        },
        TermType::M => {
            let t: u32 = d.month + term as u32 - 1;
            let y2: u32 = d.year + t / 12;
            let m2: u32 = t % 12 + 1;
            let md = days_in_month(y2, m2);
            let day2: u32 = if d.day <= md {
                d.day
            } else {
                md
            };
            Date { year: y2, month: m2, day: day2 }
        },
        TermType::Y => {
            let y2: u32 = d.year + term as u32;
            let md = days_in_month(y2, d.month);
            let day2: u32 = if d.day <= md {
                d.day
            } else {
                md
            };
            Date { year: y2, month: d.month, day: day2 }
        },
    }
}

/// Exact signed count of calendar days from `a` to `b` (negative when `b`
/// precedes `a`).
pub fn day_span(a: &Date, b: &Date) -> (r: i32)
    requires
        a.is_valid_extended(),
        b.is_valid_extended(),
        a.year <= MAX_YEAR + 256,
        b.year <= MAX_YEAR + 256,
    ensures
        r == day_number_spec(*b) - day_number_spec(*a),
{
    let na = day_number(a);
    let nb = day_number(b);
    nb as i32 - na as i32
}

} // verus!
