//! Product and order definitions: the term unit, the renewal policy, and the
//! plain data types the accrual engine works on.

use vstd::prelude::*;

use crate::date::{Date, day_number, day_number_spec, year_advance_spec, days_in_month};
use crate::decimal::Dec2;

verus! {

/// Unit of one accrual term: day, month or year.
#[derive(Clone, Copy, PartialEq, Eq, Structural, Debug, Hash)]
pub enum TermType {
    D,
    M,
    Y,
}

/// Renewal policy at the end of a term: no renewal, renew the principal only,
/// or renew principal and interest (compounding).
#[derive(Clone, Copy, PartialEq, Eq, Structural, Debug, Hash)]
pub enum RenewType {
    N,
    P,
    I,
}

impl From<usize> for TermType {
    fn from(i: usize) -> (r: Self) {
        match i {
            1 => TermType::M,
            2 => TermType::Y,
            _ => TermType::D,
        }
    }
}

impl vstd::std_specs::convert::FromSpecImpl<usize> for TermType {
    open spec fn obeys_from_spec() -> bool {
        true
    }

    open spec fn from_spec(i: usize) -> Self {
        if i == 1 {
            TermType::M
        } else if i == 2 {
            TermType::Y
        } else {
            TermType::D
        }
    }
}

impl Default for TermType {
    fn default() -> (r: Self)
        ensures
            r == TermType::D,
    {
        TermType::D
    }
}

impl TermType {
    /// The unit's display label.
    pub fn label(&self) -> (r: String)
        ensures
            self is D ==> r@ == "天"@,
            self is M ==> r@ == "月"@,
            self is Y ==> r@ == "年"@,
    {
        match self {
            TermType::D => "天".to_string(),
            TermType::M => "月".to_string(),
            TermType::Y => "年".to_string(),
        }
    }
}

impl From<usize> for RenewType {
    fn from(i: usize) -> (r: Self) {
        match i {
            1 => RenewType::P,
            2 => RenewType::I,
            _ => RenewType::N,
        }
    }
}

impl vstd::std_specs::convert::FromSpecImpl<usize> for RenewType {
    open spec fn obeys_from_spec() -> bool {
        true
    }

    open spec fn from_spec(i: usize) -> Self {
        if i == 1 {
            RenewType::P
        } else if i == 2 {
            RenewType::I
        } else {
            RenewType::N
        }
    }
}

impl Default for RenewType {
    fn default() -> (r: Self)
        ensures
            r == RenewType::N,
    {
        RenewType::N
    }
}

impl RenewType {
    /// The policy's display label.
    pub fn label(&self) -> (r: String)
        ensures
            self is N ==> r@ == "不续存"@,
            self is P ==> r@ == "本金续存"@,
            self is I ==> r@ == "本息续存"@,
    {
        match self {
            RenewType::N => "不续存".to_string(),
            RenewType::P => "本金续存".to_string(),
            RenewType::I => "本息续存".to_string(),
        }
    }
}

/// A deposit order: the principal, the deposit ("save") date and the
/// withdrawal ("draw") date, each encoded as an 8-digit `YYYYMMDD` integer,
/// and the derived day count between them.
///
/// `days` is a cache of the span, recomputed by
/// [`crate::calculator::check_date`] whenever either date changes; it is
/// never an independent source of truth.
#[derive(Clone, Copy, PartialEq, Eq, Structural, Debug)]
pub struct Order {
    pub principal: Dec2,
    pub save_date: u32,
    pub draw_date: u32,
    pub days: i32,
}

/// A deposit product: term length and unit, nominal interest rate and bonus
/// ("bean") rate as percentages, and the renewal policy.  `interest` and
/// `bean_int` are outputs, overwritten wholesale on every successful
/// computation.
#[derive(Clone, Copy, PartialEq, Eq, Structural, Debug)]
pub struct Product {
    pub term: u8,
    pub term_type: TermType,
    pub int_rate: Dec2,
    pub bean_rate: Dec2,
    pub renew_type: RenewType,
    pub interest: Dec2,
    pub bean_int: Dec2,
}

impl Default for Product {
    fn default() -> (r: Self)
        ensures
            r == (Product {
                term: 0,
                term_type: TermType::D,
                int_rate: Dec2 { cents: 0 },
                bean_rate: Dec2 { cents: 0 },
                renew_type: RenewType::N,
                interest: Dec2 { cents: 0 },
                bean_int: Dec2 { cents: 0 },
            }),
    {
        Product {
            term: 0,
            term_type: TermType::D,
            int_rate: Dec2::zero(),
            bean_rate: Dec2::zero(),
            renew_type: RenewType::N,
            interest: Dec2::zero(),
            bean_int: Dec2::zero(),
        }
    }
}

/// The session configuration: the one editable order, and the list of
/// products computed against it.
#[derive(Clone, Debug)]
pub struct Config {
    pub order: Order,
    pub products: Vec<Product>,
}

/// A product with the given terms and rates and no computed outputs yet.
/// Rates are percentages in hundredths (185 is 1.85%).
pub open spec fn product_spec(
    term: u8,
    term_type: TermType,
    int_rate: i64,
    bean_rate: i64,
    renew_type: RenewType,
) -> Product {
    Product {
        term,
        term_type,
        int_rate: Dec2 { cents: int_rate },
        bean_rate: Dec2 { cents: bean_rate },
        renew_type,
        interest: Dec2 { cents: 0 },
        bean_int: Dec2 { cents: 0 },
    }
}

/// The stock product list: the common terms from seven days to five
/// years, each in a principal-only and a compounding variant.
pub open spec fn default_products_spec() -> Seq<Product> {
    seq![
        product_spec(7, TermType::D, 185, 300, RenewType::P),
        product_spec(7, TermType::D, 185, 300, RenewType::I),
        product_spec(3, TermType::M, 160, 300, RenewType::P),
        product_spec(3, TermType::M, 160, 300, RenewType::I),
        product_spec(6, TermType::M, 180, 345, RenewType::P),
        product_spec(6, TermType::M, 180, 345, RenewType::I),
        product_spec(1, TermType::Y, 200, 345, RenewType::P),
        product_spec(1, TermType::Y, 200, 345, RenewType::I),
        product_spec(3, TermType::Y, 315, 200, RenewType::P),
        product_spec(3, TermType::Y, 315, 200, RenewType::I),
        product_spec(5, TermType::Y, 365, 200, RenewType::P),
        product_spec(5, TermType::Y, 365, 200, RenewType::I),
    ]
}

/// [`product_spec`] as executable code.
fn product_new(
    term: u8,
    term_type: TermType,
    int_rate: i64,
    bean_rate: i64,
    renew_type: RenewType,
) -> (r: Product)
    ensures
        r == product_spec(term, term_type, int_rate, bean_rate, renew_type),
{
    Product {
        term,
        term_type,
        int_rate: Dec2 { cents: int_rate },
        bean_rate: Dec2 { cents: bean_rate },
        renew_type,
        interest: Dec2 { cents: 0 },
        bean_int: Dec2 { cents: 0 },
    }
}

impl Config {
    /// The stock configuration: the given order with the built-in product
    /// list.
    pub fn with_order(order: Order) -> (r: Config)
        ensures
            r.order == order,
            r.products@ == default_products_spec(),
    {
        let products: Vec<Product> = vec![
            product_new(7, TermType::D, 185, 300, RenewType::P),
            product_new(7, TermType::D, 185, 300, RenewType::I),
            product_new(3, TermType::M, 160, 300, RenewType::P),
            product_new(3, TermType::M, 160, 300, RenewType::I),
            product_new(6, TermType::M, 180, 345, RenewType::P),
            product_new(6, TermType::M, 180, 345, RenewType::I),
            product_new(1, TermType::Y, 200, 345, RenewType::P),
            product_new(1, TermType::Y, 200, 345, RenewType::I),
            product_new(3, TermType::Y, 315, 200, RenewType::P),
            product_new(3, TermType::Y, 315, 200, RenewType::I),
            product_new(5, TermType::Y, 365, 200, RenewType::P),
            product_new(5, TermType::Y, 365, 200, RenewType::I),
        ];
        proof {
            assert(products@ =~= default_products_spec());
        }
        Config { order, products }
    }
}

/// The `YYYYMMDD` encoding of a valid date.
pub open spec fn encode_date_spec(d: Date) -> int {
    d.year * 10000 + d.month * 100 + d.day
}

impl Order {
    /// A fresh order for a deposit made today: zero principal, saved today,
    /// drawn one year from today (day of month clamped), with the day span
    /// derived.
    pub fn from_date(today: &Date) -> (r: Order)
        requires
            today.is_valid(),
            today.year < 9999,
        ensures
            r.principal == Dec2::zero_spec(),
            r.save_date == encode_date_spec(*today),
            r.draw_date == encode_date_spec(year_advance_spec(*today, 1)),
            r.days == day_number_spec(year_advance_spec(*today, 1)) - day_number_spec(*today),
    {
        let md = days_in_month(today.year + 1, today.month);
        let day2: u32 = if today.day <= md {
            today.day
        } else {
            md
        };
        let draw = Date { year: today.year + 1, month: today.month, day: day2 };
        let save_n = day_number(today);
        let draw_n = day_number(&draw);
        Order {
            principal: Dec2::zero(),
            save_date: today.year * 10000 + today.month * 100 + today.day,
            draw_date: draw.year * 10000 + draw.month * 100 + draw.day,
            days: draw_n as i32 - save_n as i32,
        }
    }
}

} // verus!
