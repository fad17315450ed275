use deposit_calc::calculator::{check_date, u32_to_date, DateError};
use deposit_calc::config::{Order, TermType};
use deposit_calc::date::{advance, day_span, Date};
use deposit_calc::decimal::Dec2;

fn order(save_date: u32, draw_date: u32) -> Order {
    Order {
        principal: Dec2 { cents: 0 },
        save_date,
        draw_date,
        days: -1,
    }
}

#[test]
fn decode_splits_components() {
    let d = u32_to_date(20240229).unwrap();
    assert_eq!(
        d,
        Date {
            year: 2024,
            month: 2,
            day: 29
        }
    );
}

#[test]
fn decode_rejects_month_thirteen() {
    assert_eq!(u32_to_date(20231301), Err(DateError::InvalidMonth));
    assert_eq!(u32_to_date(20230001), Err(DateError::InvalidMonth));
}

#[test]
fn decode_rejects_impossible_days() {
    assert_eq!(u32_to_date(20230132), Err(DateError::InvalidDay));
    // 2023 is not a leap year.
    assert_eq!(u32_to_date(20230229), Err(DateError::InvalidDay));
}

#[test]
fn month_advance_clamps_to_leap_february() {
    let d = Date {
        year: 2024,
        month: 1,
        day: 31,
    };
    assert_eq!(
        advance(&d, TermType::M, 1),
        Date {
            year: 2024,
            month: 2,
            day: 29
        }
    );
}

#[test]
fn month_advance_clamps_to_common_february() {
    let d = Date {
        year: 2023,
        month: 1,
        day: 31,
    };
    assert_eq!(
        advance(&d, TermType::M, 1),
        Date {
            year: 2023,
            month: 2,
            day: 28
        }
    );
}

#[test]
fn year_advance_clamps_leap_day() {
    let d = Date {
        year: 2024,
        month: 2,
        day: 29,
    };
    assert_eq!(
        advance(&d, TermType::Y, 1),
        Date {
            year: 2025,
            month: 2,
            day: 28
        }
    );
}

#[test]
fn month_advance_wraps_past_december() {
    // Fourteen months from 2023-11-30 land on 2025-01-30.
    let d = Date {
        year: 2023,
        month: 11,
        day: 30,
    };
    assert_eq!(
        advance(&d, TermType::M, 14),
        Date {
            year: 2025,
            month: 1,
            day: 30
        }
    );
}

#[test]
fn day_advance_crosses_year_boundary() {
    let d = Date {
        year: 2023,
        month: 12,
        day: 31,
    };
    assert_eq!(
        advance(&d, TermType::D, 7),
        Date {
            year: 2024,
            month: 1,
            day: 7
        }
    );
}

#[test]
fn day_span_is_julian_difference() {
    let a = u32_to_date(20230101).unwrap();
    let b = u32_to_date(20240101).unwrap();
    assert_eq!(day_span(&a, &b), 365);
    assert_eq!(day_span(&b, &a), -365);
    // A leap year in between.
    let c = u32_to_date(20250101).unwrap();
    assert_eq!(day_span(&b, &c), 366);
}

#[test]
fn validation_derives_days_from_decoded_dates() {
    let mut o = order(20230101, 20240101);
    assert_eq!(check_date(&mut o), Ok(()));
    let a = u32_to_date(o.save_date).unwrap();
    let b = u32_to_date(o.draw_date).unwrap();
    assert_eq!(o.days, day_span(&a, &b));
    assert_eq!(o.days, 365);
}

#[test]
fn validation_rejects_reversed_dates() {
    let mut o = order(20240101, 20230101);
    assert_eq!(check_date(&mut o), Err(DateError::DateOrderViolation));
}

#[test]
fn validation_rejects_out_of_range_encodings() {
    let mut o = order(9_991_231, 20230101);
    assert_eq!(check_date(&mut o), Err(DateError::DateOrderViolation));
}

#[test]
fn validation_rejects_month_thirteen() {
    let mut o = order(20231301, 20240101);
    assert_eq!(check_date(&mut o), Err(DateError::InvalidMonth));
}

#[test]
fn validation_rejects_day_thirty_two() {
    let mut o = order(20230132, 20240101);
    assert_eq!(check_date(&mut o), Err(DateError::InvalidDay));
}

#[test]
fn validation_accepts_a_century_exactly() {
    let mut o = order(19000101, 19991208);
    assert_eq!(check_date(&mut o), Ok(()));
    assert_eq!(o.days, 36500);
}

#[test]
fn validation_rejects_a_century_and_a_day() {
    let mut o = order(19000101, 19991209);
    assert_eq!(check_date(&mut o), Err(DateError::SpanTooLarge));
    // The span is still derived before the bound is checked.
    assert_eq!(o.days, 36501);
}

#[test]
fn order_from_date_spans_one_year() {
    let today = Date {
        year: 2023,
        month: 6,
        day: 15,
    };
    let o = Order::from_date(&today);
    assert_eq!(o.save_date, 20230615);
    assert_eq!(o.draw_date, 20240615);
    assert_eq!(o.days, 366);
    assert_eq!(o.principal, Dec2 { cents: 0 });
}

#[test]
fn order_from_leap_day_clamps() {
    let today = Date {
        year: 2024,
        month: 2,
        day: 29,
    };
    let o = Order::from_date(&today);
    assert_eq!(o.draw_date, 20250228);
    assert_eq!(o.days, 365);
}
