use deposit_calc::calculator::Req;
use deposit_calc::config::{RenewType, TermType};
use deposit_calc::decimal::Dec2;

fn req(
    principal: i64,
    save_date: u32,
    draw_date: u32,
    term: u8,
    term_type: TermType,
    int_rate: i64,
    bean_rate: i64,
    renew_type: RenewType,
) -> Req {
    Req {
        principal: Dec2 { cents: principal },
        save_date,
        draw_date,
        term,
        term_type,
        int_rate: Dec2 { cents: int_rate },
        bean_rate: Dec2 { cents: bean_rate },
        renew_type,
    }
}

#[test]
fn zero_term_yields_zero() {
    // A product with no term accrues nothing, whatever else the request
    // holds.
    let r = req(
        123_456,
        20230101,
        20991231,
        0,
        TermType::Y,
        999,
        999,
        RenewType::I,
    );
    assert_eq!(deposit_calc::calculator::calc(&r), (Dec2 { cents: 0 }, Dec2 { cents: 0 }));
}

#[test]
fn equal_dates_yield_zero() {
    let r = req(
        1_000_000,
        20230505,
        20230505,
        7,
        TermType::D,
        185,
        300,
        RenewType::P,
    );
    assert_eq!(deposit_calc::calculator::calc(&r), (Dec2 { cents: 0 }, Dec2 { cents: 0 }));
}

#[test]
fn compute_is_pure() {
    let r = req(
        1_000_000,
        20230101,
        20241231,
        7,
        TermType::D,
        185,
        300,
        RenewType::N,
    );
    let a = deposit_calc::calculator::calc(&r);
    let b = deposit_calc::calculator::calc(&r);
    assert_eq!(a, b);
}

#[test]
fn no_renew_accrues_one_period_only() {
    // A two-year span with a seven-day term: only the first seven days
    // accrue.  7/360 * 1.85% * 10000.00 = 3.5972.. rounds to 3.60;
    // 7/360 * 3.00% * 10000.00 = 5.8333.. truncates to 5.83.
    let r = req(
        1_000_000,
        20230101,
        20241231,
        7,
        TermType::D,
        185,
        300,
        RenewType::N,
    );
    assert_eq!(deposit_calc::calculator::calc(&r), (Dec2 { cents: 360 }, Dec2 { cents: 583 }));
}

#[test]
fn no_renew_with_clamped_first_period() {
    // The draw date falls within the first seven-day term: a single
    // clamped partial period at the penalty rate.
    // 2/360 * 0.35% * 10000.00 = 0.1944.. rounds to 0.19; bonus is zero.
    let r = req(
        1_000_000,
        20230101,
        20230103,
        7,
        TermType::D,
        185,
        300,
        RenewType::N,
    );
    assert_eq!(deposit_calc::calculator::calc(&r), (Dec2 { cents: 19 }, Dec2 { cents: 0 }));
}

#[test]
fn renew_principal_accumulates_additively() {
    // 30 days under a 7-day principal-only renewal: four full periods at
    // the nominal rates and a 2-day partial tail at the penalty rate.
    let r = req(
        1_000_000,
        20230101,
        20230131,
        7,
        TermType::D,
        185,
        300,
        RenewType::P,
    );
    assert_eq!(deposit_calc::calculator::calc(&r), (Dec2 { cents: 1459 }, Dec2 { cents: 2332 }));
}

#[test]
fn compounding_exceeds_simple_interest() {
    // Two full six-month periods at 5.00% on 10000.00.
    let compound = req(
        1_000_000,
        20230101,
        20240101,
        6,
        TermType::M,
        500,
        300,
        RenewType::I,
    );
    let simple = req(
        1_000_000,
        20230101,
        20240101,
        6,
        TermType::M,
        500,
        300,
        RenewType::P,
    );
    let ci = deposit_calc::calculator::calc(&compound);
    let si = deposit_calc::calculator::calc(&simple);
    // 181 days then 184 days: 25139 + 26198 compounded, 50695 simple.
    assert_eq!(ci.0, Dec2 { cents: 51337 });
    assert_eq!(si.0, Dec2 { cents: 50695 });
    assert!(ci.0.cents > si.0.cents);
    assert_eq!(ci.1, Dec2 { cents: 30801 });
    assert_eq!(si.1, Dec2 { cents: 30416 });
}

#[test]
fn partial_final_period_uses_penalty_rates() {
    // Nominal rates of 5.00% / 5.00%, but the draw date falls mid-period:
    // the whole accrual happens at 0.35% interest and zero bonus.
    // 151/360 * 0.35% * 10000.00 = 14.6805.. rounds to 14.68.
    for renew in [RenewType::N, RenewType::P, RenewType::I] {
        let r = req(
            1_000_000,
            20230101,
            20230601,
            1,
            TermType::Y,
            500,
            500,
            renew,
        );
        assert_eq!(deposit_calc::calculator::calc(&r), (Dec2 { cents: 1468 }, Dec2 { cents: 0 }));
    }
}

#[test]
fn interest_rounds_half_away_bonus_truncates() {
    // One day at 4.50% on 40.00 is exactly half a hundredth:
    // 1/360 * 4.50% * 40.00 = 0.005.  Interest rounds up to 0.01, the
    // bonus at the same rate truncates to zero.
    let r = req(
        4_000,
        20230101,
        20230102,
        1,
        TermType::D,
        450,
        450,
        RenewType::N,
    );
    assert_eq!(deposit_calc::calculator::calc(&r), (Dec2 { cents: 1 }, Dec2 { cents: 0 }));
}

#[test]
fn year_term_compounds_across_leap_years() {
    // Two one-year periods (366 then 365 days) at 2.00% with a 3.45% bonus,
    // principal and interest renewed.
    let r = req(
        1_000_000,
        20230615,
        20250615,
        1,
        TermType::Y,
        200,
        345,
        RenewType::I,
    );
    assert_eq!(
        deposit_calc::calculator::calc(&r),
        (Dec2 { cents: 41023 }, Dec2 { cents: 70765 })
    );
}

#[test]
fn computability_check_mirrors_validation() {
    // A zero term is always computable; otherwise the dates must validate
    // and the amounts must fit the representation.
    let ok = req(
        1_000_000,
        20230101,
        20241231,
        7,
        TermType::D,
        185,
        300,
        RenewType::N,
    );
    assert!(deposit_calc::calculator::req_is_computable(&ok));
    let mut bad_dates = ok;
    bad_dates.save_date = 20241231;
    bad_dates.draw_date = 20230101;
    assert!(!deposit_calc::calculator::req_is_computable(&bad_dates));
    let mut zero_term = bad_dates;
    zero_term.term = 0;
    assert!(deposit_calc::calculator::req_is_computable(&zero_term));
    let mut bad_month = ok;
    bad_month.save_date = 20231301;
    assert!(!deposit_calc::calculator::req_is_computable(&bad_month));
}

#[test]
fn month_term_walks_calendar_months() {
    // 2023-01-31 with a one-month term: first period ends 2023-02-28
    // (28 days), so a draw on 2023-02-28 is one full period.
    // 28/360 * 1.60% * 10000.00 = 12.4444.. rounds to 12.44.
    let r = req(
        1_000_000,
        20230131,
        20230228,
        1,
        TermType::M,
        160,
        0,
        RenewType::N,
    );
    assert_eq!(deposit_calc::calculator::calc(&r), (Dec2 { cents: 1244 }, Dec2 { cents: 0 }));
}
