//! The accrual engine: request fingerprints, order validation, and the pure
//! term-by-term interest computation.

use vstd::prelude::*;

use crate::config::{Order, Product, RenewType, TermType};
use crate::date::{
    advance, advance_spec, Date, day_number, day_number_spec, day_span, days_in_month,
    days_in_month_spec, date_lt, lemma_advance_increases, lemma_bounded_date_valid,
    lemma_day_number_order, MAX_YEAR, MIN_YEAR,
};
use crate::decimal::{
    Dec2, div_round_half_away, div_round_half_away_exec, div_trunc, div_trunc_exec, MAX_ABS_CENTS,
};

verus! {

/// Smallest `YYYYMMDD` encoding an order date may carry (1000-01-01).
pub const DATE_ENC_MIN: u32 = 10000101;

/// Largest `YYYYMMDD` encoding an order date may carry (9999-12-31).
pub const DATE_ENC_MAX: u32 = 99991231;

/// Largest day span an order may cover (one century).
pub const MAX_SPAN_DAYS: i32 = 36500;

/// Why an order failed validation.
#[derive(Clone, Copy, PartialEq, Eq, Structural, Debug)]
pub enum DateError {
    /// A date's month component lies outside `[1, 12]`.
    InvalidMonth,
    /// A date's day component does not exist in its year and month.
    InvalidDay,
    /// A date encoding lies outside `[DATE_ENC_MIN, DATE_ENC_MAX]`, or the
    /// save date falls after the draw date.
    DateOrderViolation,
    /// The order spans more than [`MAX_SPAN_DAYS`] days.
    SpanTooLarge,
}

/// The year component of an encoded date.
pub open spec fn decoded_year(v: u32) -> int {
    v as int / 10000
}

/// The month component of an encoded date.
pub open spec fn decoded_month(v: u32) -> int {
    (v as int / 100) % 100
}

/// The day component of an encoded date.
pub open spec fn decoded_day(v: u32) -> int {
    v as int % 100
}

/// The date triple an encoding denotes.
pub open spec fn decoded_date(v: u32) -> Date {
    Date {
        year: decoded_year(v) as u32,
        month: decoded_month(v) as u32,
        day: decoded_day(v) as u32,
    }
}

/// The encoding denotes a real calendar date the calendar supports.
pub open spec fn decode_ok(v: u32) -> bool {
    &&& decoded_year(v) <= MAX_YEAR
    &&& 1 <= decoded_month(v) <= 12
    &&& 1 <= decoded_day(v) <= days_in_month_spec(decoded_year(v), decoded_month(v))
}

/// Splits an 8-digit `YYYYMMDD` encoding into a calendar date, rejecting a
/// month outside `[1, 12]` and a day that does not exist in that year and
/// month (leap years accounted for).
pub fn u32_to_date(date: u32) -> (r: Result<Date, DateError>)
    ensures
        r == if !(1 <= decoded_month(date) <= 12) {
            Err::<Date, DateError>(DateError::InvalidMonth)
        } else if !(decoded_year(date) <= MAX_YEAR && 1 <= decoded_day(date)
            <= days_in_month_spec(decoded_year(date), decoded_month(date))) {
            Err::<Date, DateError>(DateError::InvalidDay)
        } else {
            Ok::<Date, DateError>(decoded_date(date))
        },
        r is Ok <==> decode_ok(date),
{
    let year = date / 10000;
    let month = date / 100 % 100;
    let day = date % 100;
    if month < 1 || month > 12 {
        Err(DateError::InvalidMonth)
    } else if year > MAX_YEAR {
        Err(DateError::InvalidDay)
    } else {
        let md = days_in_month(year, month);
        if day < 1 || day > md {
            Err(DateError::InvalidDay)
        } else {
            Ok(Date { year, month, day })
        }
    }
}

/// An encoding already known to denote a real date, split without checks.
pub(crate) fn decode_valid(v: u32) -> (r: Date)
    requires
        decode_ok(v),
    ensures
        r == decoded_date(v),
{
    Date { year: v / 10000, month: v / 100 % 100, day: v % 100 }
}

/// An encoding in range denotes a date whose year is in range, so a decoded
/// in-range date is valid.
pub proof fn lemma_decoded_in_range(v: u32)
    requires
        DATE_ENC_MIN <= v <= DATE_ENC_MAX,
    ensures
        MIN_YEAR <= decoded_year(v) <= MAX_YEAR,
        decode_ok(v) ==> decoded_date(v).is_valid(),
{
}

/// The numeric order of two well-formed `YYYYMMDD` encodings is exactly the
/// calendar order of the dates they denote.
pub proof fn lemma_encoding_order(a: u32, b: u32)
    requires
        DATE_ENC_MIN <= a <= DATE_ENC_MAX,
        DATE_ENC_MIN <= b <= DATE_ENC_MAX,
        decode_ok(a),
        decode_ok(b),
    ensures
        a < b <==> date_lt(decoded_date(a), decoded_date(b)),
        a == b <==> decoded_date(a) == decoded_date(b),
        a <= b ==> day_number_spec(decoded_date(a)) <= day_number_spec(decoded_date(b)),
        a < b ==> day_number_spec(decoded_date(a)) < day_number_spec(decoded_date(b)),
{
    let da = decoded_date(a);
    let db = decoded_date(b);
    assert(a as int == decoded_year(a) * 10000 + decoded_month(a) * 100 + decoded_day(a))
        by (nonlinear_arith)
        requires a >= 0;
    assert(b as int == decoded_year(b) * 10000 + decoded_month(b) * 100 + decoded_day(b))
        by (nonlinear_arith)
        requires b >= 0;
    lemma_decoded_in_range(a);
    lemma_decoded_in_range(b);
    lemma_day_number_order(da, db);
}

/// Both order dates are encoded in range and the save date does not fall
/// after the draw date.
pub open spec fn order_dates_in_range(o: Order) -> bool {
    &&& DATE_ENC_MIN <= o.save_date <= DATE_ENC_MAX
    &&& DATE_ENC_MIN <= o.draw_date <= DATE_ENC_MAX
    &&& o.save_date <= o.draw_date
}

/// Exact day count from the order's save date to its draw date.
pub open spec fn order_span_spec(o: Order) -> int {
    day_number_spec(decoded_date(o.draw_date)) - day_number_spec(decoded_date(o.save_date))
}

/// The order passes validation: dates in range and in order, both real
/// calendar dates, and a span of at most [`MAX_SPAN_DAYS`] days.
pub open spec fn order_valid(o: Order) -> bool {
    &&& order_dates_in_range(o)
    &&& decode_ok(o.save_date)
    &&& decode_ok(o.draw_date)
    &&& order_span_spec(o) <= MAX_SPAN_DAYS
}

/// Validates the order's dates and derives its day span.
///
/// On success `order.days` holds the exact calendar day count from the save
/// date to the draw date; the dates themselves are never changed.  Each
/// error comes exactly when its condition holds, checked in this order:
/// encoding range and date order, the save date's components, the draw
/// date's components, the span bound.  `days` is updated just before the
/// span check, so it is derived even when `SpanTooLarge` is returned.
pub fn check_date(order: &mut Order) -> (r: Result<(), DateError>)
    ensures
        old(order).principal == final(order).principal,
        old(order).save_date == final(order).save_date,
        old(order).draw_date == final(order).draw_date,
        r == Ok::<(), DateError>(()) <==> order_valid(*old(order)),
        r is Ok ==> final(order).days == order_span_spec(*old(order)),
        r == if !order_dates_in_range(*old(order)) {
            Err::<(), DateError>(DateError::DateOrderViolation)
        } else if !(1 <= decoded_month(old(order).save_date) <= 12) {
            Err::<(), DateError>(DateError::InvalidMonth)
        } else if !decode_ok(old(order).save_date) {
            Err::<(), DateError>(DateError::InvalidDay)
        } else if !(1 <= decoded_month(old(order).draw_date) <= 12) {
            Err::<(), DateError>(DateError::InvalidMonth)
        } else if !decode_ok(old(order).draw_date) {
            Err::<(), DateError>(DateError::InvalidDay)
        } else if order_span_spec(*old(order)) > MAX_SPAN_DAYS {
            Err::<(), DateError>(DateError::SpanTooLarge)
        } else {
            Ok::<(), DateError>(())
        },
        r == Err::<(), DateError>(DateError::SpanTooLarge) ==> final(order).days
            == order_span_spec(*old(order)),
        !(r is Ok || r == Err::<(), DateError>(DateError::SpanTooLarge)) ==> final(order).days
            == old(order).days,
{
    if order.save_date < DATE_ENC_MIN || order.save_date > DATE_ENC_MAX || order.draw_date
        < DATE_ENC_MIN || order.draw_date > DATE_ENC_MAX || order.save_date > order.draw_date {
        return Err(DateError::DateOrderViolation);
    }
    let save_date = match u32_to_date(order.save_date) {
        Ok(d) => d,
        Err(e) => { return Err(e); },
    };
    let draw_date = match u32_to_date(order.draw_date) {
        Ok(d) => d,
        Err(e) => { return Err(e); },
    };
    proof {
        lemma_decoded_in_range(order.save_date);
        lemma_decoded_in_range(order.draw_date);
    }
    order.days = day_span(&save_date, &draw_date);
    if order.days > MAX_SPAN_DAYS {
        return Err(DateError::SpanTooLarge);
    }
    Ok(())
}

/// The request fingerprint: the immutable, value-equal tuple of every
/// quantity that affects a computation's result.  Two fingerprints are equal
/// exactly when all eight fields are equal; equal fingerprints always yield
/// identical results, so a fingerprint is the cache and queue key.
#[derive(Clone, Copy, PartialEq, Eq, Structural, Debug, Hash)]
pub struct Req {
    pub principal: Dec2,
    pub save_date: u32,
    pub draw_date: u32,
    pub term: u8,
    pub term_type: TermType,
    pub int_rate: Dec2,
    pub bean_rate: Dec2,
    pub renew_type: RenewType,
}

impl Req {
    /// The fingerprint an order and a product determine.
    pub open spec fn new_spec(order: Order, product: Product) -> Req {
        Req {
            principal: order.principal,
            save_date: order.save_date,
            draw_date: order.draw_date,
            term: product.term,
            term_type: product.term_type,
            int_rate: product.int_rate,
            bean_rate: product.bean_rate,
            renew_type: product.renew_type,
        }
    }

    /// Derives the request fingerprint for computing `product` against
    /// `order`.
    pub fn new(order: &Order, product: &Product) -> (r: Self)
        ensures
            r == Req::new_spec(*order, *product),
    {
        Req {
            principal: order.principal,
            save_date: order.save_date,
            draw_date: order.draw_date,
            term: product.term,
            term_type: product.term_type,
            int_rate: product.int_rate,
            bean_rate: product.bean_rate,
            renew_type: product.renew_type,
        }
    }
}

/// Two order/product pairs determine the same fingerprint exactly when the
/// eight fingerprinted fields agree; in particular the derived `days` field
/// and a product's output fields never influence the fingerprint.
pub proof fn lemma_fingerprint_fields(o1: Order, p1: Product, o2: Order, p2: Product)
    ensures
        Req::new_spec(o1, p1) == Req::new_spec(o2, p2) <==> {
            &&& o1.principal == o2.principal
            &&& o1.save_date == o2.save_date
            &&& o1.draw_date == o2.draw_date
            &&& p1.term == p2.term
            &&& p1.term_type == p2.term_type
            &&& p1.int_rate == p2.int_rate
            &&& p1.bean_rate == p2.bean_rate
            &&& p1.renew_type == p2.renew_type
        },
{
}

/// Denominator of one period's raw accrual expressed in hundredths:
/// `days / 360 * (rate / 100) / 100 * (principal / 100)`, rescaled to
/// hundredths, is `days * rate_cents * principal_cents / 3_600_000`.
pub const ACCRUAL_DEN: i64 = 3_600_000;

/// Fixed interest rate, in hundredths of a percent, applied to a partial
/// final period (early withdrawal): 0.35%.
pub const PENALTY_RATE_CENTS: i64 = 35;

/// Numerator, over [`ACCRUAL_DEN`], of an accumulator plus one period's raw
/// accrual of `days / 360 * (rate / 100)` percent on `principal`.
pub open spec fn period_num(days: int, rate: int, principal: int, acc: int) -> int {
    days * rate * principal + acc * ACCRUAL_DEN
}

/// The interest accumulator after one period: the period's raw accrual is
/// added and the sum is rounded to two decimals half away from zero; a sum
/// that overflows the representation resets the accumulator to zero.
pub open spec fn int_acc_step(acc: int, days: int, rate: int, principal: int) -> int {
    let q = div_round_half_away(period_num(days, rate, principal, acc), ACCRUAL_DEN as int);
    if -MAX_ABS_CENTS <= q <= MAX_ABS_CENTS {
        q
    } else {
        0
    }
}

/// The bonus accumulator after one period: as [`int_acc_step`], but the sum
/// is truncated toward zero at two decimals (a bonus never rounds up).
pub open spec fn bean_acc_step(acc: int, days: int, rate: int, principal: int) -> int {
    let q = div_trunc(period_num(days, rate, principal, acc), ACCRUAL_DEN as int);
    if -MAX_ABS_CENTS <= q <= MAX_ABS_CENTS {
        q
    } else {
        0
    }
}

/// Folding accumulated interest into the principal (compounding); a sum
/// that overflows the representation resets the principal to zero.
pub open spec fn fold_principal(principal: int, interest: int) -> int {
    if -MAX_ABS_CENTS <= principal + interest <= MAX_ABS_CENTS {
        principal + interest
    } else {
        0
    }
}

/// [`int_acc_step`] as executable code.
fn int_acc_step_exec(acc: i64, days: u32, rate: i64, principal: i64) -> (r: i64)
    requires
        days <= 36500,
        -MAX_ABS_CENTS <= acc <= MAX_ABS_CENTS,
        -MAX_ABS_CENTS <= rate <= MAX_ABS_CENTS,
        -MAX_ABS_CENTS <= principal <= MAX_ABS_CENTS,
    ensures
        r as int == int_acc_step(acc as int, days as int, rate as int, principal as int),
        -MAX_ABS_CENTS <= r <= MAX_ABS_CENTS,
{
    proof {
        lemma_period_num_bound(days as int, rate as int, principal as int, acc as int);
    }
    let num: i128 = days as i128 * rate as i128 * principal as i128 + acc as i128
        * ACCRUAL_DEN as i128;
    let q = div_round_half_away_exec(num, ACCRUAL_DEN as i128);
    if -MAX_ABS_CENTS as i128 <= q && q <= MAX_ABS_CENTS as i128 {
        q as i64
    } else {
        0
    }
}

/// [`bean_acc_step`] as executable code.
fn bean_acc_step_exec(acc: i64, days: u32, rate: i64, principal: i64) -> (r: i64)
    requires
        days <= 36500,
        -MAX_ABS_CENTS <= acc <= MAX_ABS_CENTS,
        -MAX_ABS_CENTS <= rate <= MAX_ABS_CENTS,
        -MAX_ABS_CENTS <= principal <= MAX_ABS_CENTS,
    ensures
        r as int == bean_acc_step(acc as int, days as int, rate as int, principal as int),
        -MAX_ABS_CENTS <= r <= MAX_ABS_CENTS,
{
    proof {
        lemma_period_num_bound(days as int, rate as int, principal as int, acc as int);
    }
    let num: i128 = days as i128 * rate as i128 * principal as i128 + acc as i128
        * ACCRUAL_DEN as i128;
    let q = div_trunc_exec(num, ACCRUAL_DEN as i128);
    if -MAX_ABS_CENTS as i128 <= q && q <= MAX_ABS_CENTS as i128 {
        q as i64
    } else {
        0
    }
}

/// The period numerator stays far within 128-bit range for representable
/// amounts and a span of at most a century.
proof fn lemma_period_num_bound(days: int, rate: int, principal: int, acc: int)
    requires
        0 <= days <= 36500,
        -MAX_ABS_CENTS <= rate <= MAX_ABS_CENTS,
        -MAX_ABS_CENTS <= principal <= MAX_ABS_CENTS,
        -MAX_ABS_CENTS <= acc <= MAX_ABS_CENTS,
    ensures
        -0x1000_0000_0000_0000_0000_0000_0000_0000 <= days * rate
            <= 0x1000_0000_0000_0000_0000_0000_0000_0000,
        -4_000_000_000_000_000_000_000_000_000_000_000_000 <= days * rate * principal
            <= 4_000_000_000_000_000_000_000_000_000_000_000_000,
        -40_000_000_000_000_000_000_000 <= acc * ACCRUAL_DEN <= 40_000_000_000_000_000_000_000,
        -5_000_000_000_000_000_000_000_000_000_000_000_000 <= period_num(
            days,
            rate,
            principal,
            acc,
        ) <= 5_000_000_000_000_000_000_000_000_000_000_000_000,
{
    assert(-400_000_000_000_000_000_000 <= days * rate <= 400_000_000_000_000_000_000)
        by (nonlinear_arith)
        requires 0 <= days <= 36500 && -MAX_ABS_CENTS <= rate <= MAX_ABS_CENTS;
    assert(-4_000_000_000_000_000_000_000_000_000_000_000_000 <= days * rate * principal
        <= 4_000_000_000_000_000_000_000_000_000_000_000_000) by (nonlinear_arith)
        requires
            -400_000_000_000_000_000_000 <= days * rate <= 400_000_000_000_000_000_000,
            -MAX_ABS_CENTS <= principal <= MAX_ABS_CENTS,
    ;
    assert(-40_000_000_000_000_000_000_000 <= acc * ACCRUAL_DEN <= 40_000_000_000_000_000_000_000)
        by (nonlinear_arith)
        requires -MAX_ABS_CENTS <= acc <= MAX_ABS_CENTS;
}

/// The accrual recursion is well-defined from `cursor` on: a positive term,
/// a valid cursor, and a valid draw date not before the cursor.
pub open spec fn accrue_cond(req: Req, cursor: Date) -> bool {
    &&& 1 <= req.term
    &&& cursor.is_valid()
    &&& decode_ok(req.draw_date)
    &&& decoded_date(req.draw_date).is_valid()
    &&& day_number_spec(cursor) <= day_number_spec(decoded_date(req.draw_date))
}

/// The accrual walk from `cursor` to the draw date: the final
/// `(principal, interest, bean)` accumulators, all in hundredths.
///
/// Each period runs from the cursor to one term later, clamped to the draw
/// date; a clamped (partial) final period is priced at the fixed
/// [`PENALTY_RATE_CENTS`] interest rate and a zero bonus rate.  The renewal
/// policy then decides whether to stop (`N`), to continue on the same
/// principal (`P`), or to fold the accumulated interest into the principal
/// first (`I`).
pub open spec fn accrue_spec(
    req: Req,
    cursor: Date,
    principal: int,
    interest: int,
    bean: int,
) -> (int, int, int)
    decreases day_number_spec(decoded_date(req.draw_date)) - day_number_spec(cursor)
        when accrue_cond(req, cursor)
        via accrue_spec_decreases
{
    let draw = decoded_date(req.draw_date);
    if day_number_spec(cursor) >= day_number_spec(draw) {
        (principal, interest, bean)
    } else {
        let end0 = advance_spec(cursor, req.term_type, req.term as int);
        let clamped = day_number_spec(end0) > day_number_spec(draw);
        let end = if clamped {
            draw
        } else {
            end0
        };
        let rate = if clamped {
            PENALTY_RATE_CENTS as int
        } else {
            req.int_rate.cents as int
        };
        let brate = if clamped {
            0
        } else {
            req.bean_rate.cents as int
        };
        let days = day_number_spec(end) - day_number_spec(cursor);
        let i2 = int_acc_step(interest, days, rate, principal);
        let b2 = bean_acc_step(bean, days, brate, principal);
        match req.renew_type {
            RenewType::N => (principal, i2, b2),
            RenewType::P => accrue_spec(req, end, principal, i2, b2),
            RenewType::I => accrue_spec(req, end, fold_principal(principal, i2), 0, b2),
        }
    }
}

#[via_fn]
proof fn accrue_spec_decreases(req: Req, cursor: Date, principal: int, interest: int, bean: int) {
    let draw = decoded_date(req.draw_date);
    if accrue_cond(req, cursor) && day_number_spec(cursor) < day_number_spec(draw) {
        lemma_advance_increases(cursor, req.term_type, req.term as int);
    }
}

/// After one period the recursion is again well-defined from the period's
/// end.
pub proof fn lemma_accrue_cond_step(req: Req, cursor: Date)
    requires
        accrue_cond(req, cursor),
        day_number_spec(cursor) < day_number_spec(decoded_date(req.draw_date)),
    ensures
        ({
            let draw = decoded_date(req.draw_date);
            let end0 = advance_spec(cursor, req.term_type, req.term as int);
            let end = if day_number_spec(end0) > day_number_spec(draw) {
                draw
            } else {
                end0
            };
            accrue_cond(req, end) && day_number_spec(end) > day_number_spec(cursor)
        }),
{
    let draw = decoded_date(req.draw_date);
    let end0 = advance_spec(cursor, req.term_type, req.term as int);
    lemma_advance_increases(cursor, req.term_type, req.term as int);
    if !(day_number_spec(end0) > day_number_spec(draw)) {
        lemma_bounded_date_valid(end0, draw);
    }
}

/// The fingerprint can be computed: either a zero term (which accrues
/// nothing without even reading the dates), or validated dates and
/// representable amounts — exactly what [`check_date`] establishes.
pub open spec fn req_computable(req: Req) -> bool {
    ||| req.term == 0
    ||| {
        &&& DATE_ENC_MIN <= req.save_date <= DATE_ENC_MAX
        &&& DATE_ENC_MIN <= req.draw_date <= DATE_ENC_MAX
        &&& req.save_date <= req.draw_date
        &&& decode_ok(req.save_date)
        &&& decode_ok(req.draw_date)
        &&& day_number_spec(decoded_date(req.draw_date)) - day_number_spec(
            decoded_date(req.save_date),
        ) <= MAX_SPAN_DAYS
        &&& req.principal.is_representable()
        &&& req.int_rate.is_representable()
        &&& req.bean_rate.is_representable()
    }
}

/// The result the accrual engine owes for a fingerprint: net interest
/// (principal growth plus any uncompounded remainder) and total bonus.
pub open spec fn calc_spec(req: Req) -> (Dec2, Dec2) {
    if req.term < 1 {
        (Dec2::zero_spec(), Dec2::zero_spec())
    } else {
        let (p, i, b) = accrue_spec(
            req,
            decoded_date(req.save_date),
            req.principal.cents as int,
            0,
            0,
        );
        (Dec2 { cents: (p - req.principal.cents + i) as i64 }, Dec2 { cents: b as i64 })
    }
}

/// Under `NoRenew` the engine accrues exactly one period, regardless of how
/// much of the span remains: the result is the first period's interest and
/// bonus alone (the single clamped partial period if the term overshoots
/// the draw date), and exactly zero when the save date equals the draw
/// date.
pub proof fn lemma_no_renew_single_period(req: Req)
    requires
        req_computable(req),
        1 <= req.term,
        req.renew_type == RenewType::N,
    ensures
        ({
            let save = decoded_date(req.save_date);
            let draw = decoded_date(req.draw_date);
            let p0 = req.principal.cents as int;
            if day_number_spec(save) >= day_number_spec(draw) {
                calc_spec(req) == (Dec2::zero_spec(), Dec2::zero_spec())
            } else {
                let end0 = advance_spec(save, req.term_type, req.term as int);
                let clamped = day_number_spec(end0) > day_number_spec(draw);
                let rate = if clamped {
                    PENALTY_RATE_CENTS as int
                } else {
                    req.int_rate.cents as int
                };
                let brate = if clamped {
                    0
                } else {
                    req.bean_rate.cents as int
                };
                let days = (if clamped {
                    day_number_spec(draw)
                } else {
                    day_number_spec(end0)
                }) - day_number_spec(save);
                calc_spec(req) == (
                    Dec2 { cents: int_acc_step(0, days, rate, p0) as i64 },
                    Dec2 { cents: bean_acc_step(0, days, brate, p0) as i64 },
                )
            }
        }),
{
    let save = decoded_date(req.save_date);
    let draw = decoded_date(req.draw_date);
    let p0 = req.principal.cents as int;
    lemma_decoded_in_range(req.save_date);
    lemma_decoded_in_range(req.draw_date);
    lemma_encoding_order(req.save_date, req.draw_date);
    assert(accrue_cond(req, save));
    if day_number_spec(save) >= day_number_spec(draw) {
        assert(accrue_spec(req, save, p0, 0, 0) == (p0, 0int, 0int));
    }
}

/// A term that overshoots the draw date on the very first period yields
/// exactly one clamped period, priced at the fixed penalty interest rate
/// and a zero bonus rate, whatever the product's nominal rates and renewal
/// policy say.  (Under compounding renewal the hypothesis that the single
/// folded sum stays representable rules out the overflow reset.)
pub proof fn lemma_partial_first_period_penalty(req: Req)
    requires
        req_computable(req),
        1 <= req.term,
        day_number_spec(decoded_date(req.save_date)) < day_number_spec(
            decoded_date(req.draw_date),
        ),
        day_number_spec(
            advance_spec(decoded_date(req.save_date), req.term_type, req.term as int),
        ) > day_number_spec(decoded_date(req.draw_date)),
        req.renew_type == RenewType::I ==> -MAX_ABS_CENTS <= req.principal.cents + int_acc_step(
            0,
            day_number_spec(decoded_date(req.draw_date)) - day_number_spec(
                decoded_date(req.save_date),
            ),
            PENALTY_RATE_CENTS as int,
            req.principal.cents as int,
        ) <= MAX_ABS_CENTS,
    ensures
        ({
            let span = day_number_spec(decoded_date(req.draw_date)) - day_number_spec(
                decoded_date(req.save_date),
            );
            calc_spec(req) == (
                Dec2 {
                    cents: int_acc_step(
                        0,
                        span,
                        PENALTY_RATE_CENTS as int,
                        req.principal.cents as int,
                    ) as i64,
                },
                Dec2::zero_spec(),
            )
        }),
{
    let save = decoded_date(req.save_date);
    let draw = decoded_date(req.draw_date);
    let p0 = req.principal.cents as int;
    let span = day_number_spec(draw) - day_number_spec(save);
    lemma_decoded_in_range(req.save_date);
    lemma_decoded_in_range(req.draw_date);
    lemma_encoding_order(req.save_date, req.draw_date);
    assert(accrue_cond(req, save));
    let i2 = int_acc_step(0, span, PENALTY_RATE_CENTS as int, p0);
    let b2 = bean_acc_step(0, span, 0, p0);
    assert(period_num(span, 0, p0, 0) == 0) by (nonlinear_arith);
    assert(div_trunc(0, ACCRUAL_DEN as int) == 0) by {
        vstd::arithmetic::div_mod::lemma_fundamental_div_mod_converse(0, ACCRUAL_DEN as int, 0, 0);
    }
    assert(b2 == 0);
    match req.renew_type {
        RenewType::N => {},
        RenewType::P => {
            assert(accrue_spec(req, draw, p0, i2, b2) == (p0, i2, b2));
        },
        RenewType::I => {
            let p1 = fold_principal(p0, i2);
            assert(p1 == p0 + i2);
            assert(accrue_spec(req, draw, p1, 0, b2) == (p1, 0int, b2));
        },
    }
}

/// Compounding beats simple interest.  Over two consecutive full periods
/// at a positive rate on a positive principal, renewing principal and
/// interest yields strictly more total interest than renewing the
/// principal alone — provided the first period's interest earns at least
/// one further whole hundredth in the second period (two-decimal rounding
/// can absorb anything smaller) and the folded sums stay representable.
pub proof fn lemma_compound_beats_simple(req_i: Req, req_p: Req)
    requires
        req_computable(req_i),
        1 <= req_i.term,
        req_i.renew_type == RenewType::I,
        req_p == (Req { renew_type: RenewType::P, ..req_i }),
        0 < req_i.principal.cents,
        0 < req_i.int_rate.cents,
        ({
            let save = decoded_date(req_i.save_date);
            let draw = decoded_date(req_i.draw_date);
            let e1 = advance_spec(save, req_i.term_type, req_i.term as int);
            let e2 = advance_spec(e1, req_i.term_type, req_i.term as int);
            let p0 = req_i.principal.cents as int;
            let r = req_i.int_rate.cents as int;
            let d1 = day_number_spec(e1) - day_number_spec(save);
            let d2 = day_number_spec(e2) - day_number_spec(e1);
            let i1 = div_round_half_away(d1 * r * p0, ACCRUAL_DEN as int);
            let i2c = div_round_half_away(d2 * r * (p0 + i1), ACCRUAL_DEN as int);
            &&& day_number_spec(e1) <= day_number_spec(draw)
            &&& day_number_spec(e2) == day_number_spec(draw)
            &&& p0 + i1 + i2c <= MAX_ABS_CENTS
            &&& d2 * r * i1 >= ACCRUAL_DEN
        }),
    ensures
        calc_spec(req_i).0.cents > calc_spec(req_p).0.cents,
{
    let den = ACCRUAL_DEN as int;
    let save = decoded_date(req_i.save_date);
    let draw = decoded_date(req_i.draw_date);
    let e1 = advance_spec(save, req_i.term_type, req_i.term as int);
    let e2 = advance_spec(e1, req_i.term_type, req_i.term as int);
    let p0 = req_i.principal.cents as int;
    let r = req_i.int_rate.cents as int;
    let d1 = day_number_spec(e1) - day_number_spec(save);
    let d2 = day_number_spec(e2) - day_number_spec(e1);
    let i1 = div_round_half_away(d1 * r * p0, den);
    let i2c = div_round_half_away(d2 * r * (p0 + i1), den);
    let i2s = div_round_half_away(d2 * r * p0, den);
    lemma_decoded_in_range(req_i.save_date);
    lemma_decoded_in_range(req_i.draw_date);
    lemma_encoding_order(req_i.save_date, req_i.draw_date);
    assert(accrue_cond(req_i, save));
    assert(accrue_cond(req_p, save));
    lemma_advance_increases(save, req_i.term_type, req_i.term as int);
    lemma_bounded_date_valid(e1, draw);
    lemma_advance_increases(e1, req_i.term_type, req_i.term as int);
    lemma_bounded_date_valid(e2, draw);
    assert(d1 >= 1 && d2 >= 1);
    assert(accrue_cond(req_i, e1) && accrue_cond(req_p, e1));
    assert(accrue_cond(req_i, e2) && accrue_cond(req_p, e2));
    // Every rounded quantity is nonnegative and within the representation.
    assert(d1 * r * p0 >= 1) by (nonlinear_arith)
        requires d1 >= 1 && r >= 1 && p0 >= 1;
    vstd::arithmetic::div_mod::lemma_div_pos_is_pos(2 * (d1 * r * p0) + den, 2 * den);
    assert(i1 >= 0);
    assert(d2 * r * p0 >= 1) by (nonlinear_arith)
        requires d2 >= 1 && r >= 1 && p0 >= 1;
    vstd::arithmetic::div_mod::lemma_div_pos_is_pos(2 * (d2 * r * p0) + den, 2 * den);
    assert(i2s >= 0);
    assert(d2 * r * (p0 + i1) >= 1) by (nonlinear_arith)
        requires d2 >= 1 && r >= 1 && p0 >= 1 && i1 >= 0;
    vstd::arithmetic::div_mod::lemma_div_pos_is_pos(2 * (d2 * r * (p0 + i1)) + den, 2 * den);
    assert(i2c >= 0);
    // The second compounded period gains at least one whole hundredth.
    assert(d2 * r * (p0 + i1) == d2 * r * p0 + d2 * r * i1) by (nonlinear_arith);
    crate::decimal::lemma_round_shift_whole(d2 * r * p0, 1, den);
    crate::decimal::lemma_round_monotone(d2 * r * p0 + den, d2 * r * (p0 + i1), den);
    assert(i2c >= i2s + 1);
    // The simple side accumulates additively: the accumulator shifts the
    // rounded quotient by whole hundredths.
    crate::decimal::lemma_round_shift_whole(d2 * r * p0, i1, den);
    assert(div_round_half_away(d2 * r * p0 + i1 * den, den) == i2s + i1);
    // Walk the compounding request: two periods, folding after each.
    let b1 = bean_acc_step(0, d1, req_i.bean_rate.cents as int, p0);
    let b2 = bean_acc_step(b1, d2, req_i.bean_rate.cents as int, p0 + i1);
    assert(int_acc_step(0, d1, r, p0) == i1) by {
        assert(period_num(d1, r, p0, 0) == d1 * r * p0);
    }
    assert(int_acc_step(0, d2, r, p0 + i1) == i2c) by {
        assert(period_num(d2, r, p0 + i1, 0) == d2 * r * (p0 + i1));
    }
    assert(fold_principal(p0, i1) == p0 + i1);
    assert(fold_principal(p0 + i1, i2c) == p0 + i1 + i2c);
    assert(accrue_spec(req_i, save, p0, 0, 0) == accrue_spec(req_i, e1, p0 + i1, 0, b1));
    assert(accrue_spec(req_i, e1, p0 + i1, 0, b1) == accrue_spec(
        req_i,
        e2,
        p0 + i1 + i2c,
        0,
        b2,
    ));
    assert(accrue_spec(req_i, e2, p0 + i1 + i2c, 0, b2) == (p0 + i1 + i2c, 0int, b2));
    assert(calc_spec(req_i).0.cents == i1 + i2c);
    // Walk the principal-only request: the same periods, no folding.
    let bp2 = bean_acc_step(b1, d2, req_p.bean_rate.cents as int, p0);
    assert(int_acc_step(i1, d2, r, p0) == i1 + i2s) by {
        assert(period_num(d2, r, p0, i1) == d2 * r * p0 + i1 * den);
    }
    assert(accrue_spec(req_p, save, p0, 0, 0) == accrue_spec(req_p, e1, p0, i1, b1));
    assert(accrue_spec(req_p, e1, p0, i1, b1) == accrue_spec(req_p, e2, p0, i1 + i2s, bp2));
    assert(accrue_spec(req_p, e2, p0, i1 + i2s, bp2) == (p0, i1 + i2s, bp2));
    assert(calc_spec(req_p).0.cents == i1 + i2s);
}

/// Decides [`req_computable`], so callers outside verified code can test
/// [`calc`]'s precondition before calling it.
pub fn req_is_computable(req: &Req) -> (r: bool)
    ensures
        r == req_computable(*req),
{
    if req.term == 0 {
        return true;
    }
    if req.save_date < DATE_ENC_MIN || req.save_date > DATE_ENC_MAX || req.draw_date < DATE_ENC_MIN
        || req.draw_date > DATE_ENC_MAX || req.save_date > req.draw_date {
        return false;
    }
    let save = match u32_to_date(req.save_date) {
        Ok(d) => d,
        Err(_) => { return false; },
    };
    let draw = match u32_to_date(req.draw_date) {
        Ok(d) => d,
        Err(_) => { return false; },
    };
    proof {
        lemma_decoded_in_range(req.save_date);
        lemma_decoded_in_range(req.draw_date);
    }
    let span = day_span(&save, &draw);
    span <= MAX_SPAN_DAYS && -MAX_ABS_CENTS <= req.principal.cents && req.principal.cents
        <= MAX_ABS_CENTS && -MAX_ABS_CENTS <= req.int_rate.cents && req.int_rate.cents
        <= MAX_ABS_CENTS && -MAX_ABS_CENTS <= req.bean_rate.cents && req.bean_rate.cents
        <= MAX_ABS_CENTS
}

/// Computes a fingerprint's accrued interest and bonus.
///
/// Pure and total: the result is exactly [`calc_spec`] of the fingerprint,
/// a function of the eight fingerprinted fields alone, so two calls on
/// equal fingerprints return identical results.  A zero term, or a draw
/// date equal to the save date, accrues exactly zero.
pub fn calc(req: &Req) -> (r: (Dec2, Dec2))
    requires
        req_computable(*req),
    ensures
        r == calc_spec(*req),
        req.term == 0 ==> r == (Dec2::zero_spec(), Dec2::zero_spec()),
        req.save_date == req.draw_date ==> r == (Dec2::zero_spec(), Dec2::zero_spec()),
{
    if req.term < 1 {
        return (Dec2::zero(), Dec2::zero());
    }
    let save = decode_valid(req.save_date);
    let draw = decode_valid(req.draw_date);
    proof {
        lemma_decoded_in_range(req.save_date);
        lemma_decoded_in_range(req.draw_date);
        lemma_encoding_order(req.save_date, req.draw_date);
    }
    let ghost req0 = *req;
    let ghost save0 = save;
    let ghost p0 = req.principal.cents as int;
    let save_dn = day_number(&save);
    let draw_dn = day_number(&draw);
    let mut cursor = save;
    let mut cursor_dn = save_dn;
    let mut principal: i64 = req.principal.cents;
    let mut interest: i64 = 0;
    let mut bean: i64 = 0;
    let mut done = false;
    while !done && cursor_dn < draw_dn
        invariant
            req0 == *req,
            req_computable(req0),
            1 <= req0.term,
            save0 == decoded_date(req0.save_date),
            p0 == req0.principal.cents as int,
            draw == decoded_date(req0.draw_date),
            draw.is_valid(),
            draw_dn as int == day_number_spec(draw),
            save_dn as int == day_number_spec(save0),
            cursor.is_valid(),
            cursor_dn as int == day_number_spec(cursor),
            save_dn <= cursor_dn <= draw_dn,
            draw_dn - save_dn <= MAX_SPAN_DAYS,
            -MAX_ABS_CENTS <= principal <= MAX_ABS_CENTS,
            -MAX_ABS_CENTS <= interest <= MAX_ABS_CENTS,
            -MAX_ABS_CENTS <= bean <= MAX_ABS_CENTS,
            if done {
                (principal as int, interest as int, bean as int) == accrue_spec(
                    req0,
                    save0,
                    p0,
                    0,
                    0,
                )
            } else {
                accrue_spec(req0, cursor, principal as int, interest as int, bean as int)
                    == accrue_spec(req0, save0, p0, 0, 0)
            },
        decreases
            (if done {
                0int
            } else {
                1int
            }),
            draw_dn - cursor_dn,
    {
        let ghost cursor_g = cursor;
        let ghost p_g = principal as int;
        let ghost i_g = interest as int;
        let ghost b_g = bean as int;
        let end0 = advance(&cursor, req.term_type, req.term);
        let end0_dn = day_number(&end0);
        let clamped = end0_dn > draw_dn;
        let end_date = if clamped {
            draw
        } else {
            end0
        };
        let end_dn = if clamped {
            draw_dn
        } else {
            end0_dn
        };
        let rate_c: i64 = if clamped {
            PENALTY_RATE_CENTS
        } else {
            req.int_rate.cents
        };
        let brate_c: i64 = if clamped {
            0
        } else {
            req.bean_rate.cents
        };
        let days: u32 = end_dn - cursor_dn;
        proof {
            lemma_accrue_cond_step(req0, cursor_g);
        }
        interest = int_acc_step_exec(interest, days, rate_c, principal);
        bean = bean_acc_step_exec(bean, days, brate_c, principal);
        match req.renew_type {
            RenewType::N => {
                done = true;
            },
            RenewType::P => {
                cursor = end_date;
                cursor_dn = end_dn;
            },
            RenewType::I => {
                let p2 = principal + interest;
                principal = if -MAX_ABS_CENTS <= p2 && p2 <= MAX_ABS_CENTS {
                    p2
                } else {
                    0
                };
                interest = 0;
                cursor = end_date;
                cursor_dn = end_dn;
            },
        }
        proof {
            assert(accrue_spec(req0, cursor_g, p_g, i_g, b_g) == if req0.renew_type
                == RenewType::N {
                (p_g, interest as int, bean as int)
            } else {
                accrue_spec(req0, cursor, principal as int, interest as int, bean as int)
            });
        }
    }
    (Dec2::from_cents(principal - req.principal.cents + interest), Dec2::from_cents(bean))
}

} // verus!
