//! Interest-accrual engine for time-deposit products.
//!
//! The library computes accrued interest and a secondary bonus accrual for a
//! deposit, given a principal, a deposit date, a withdrawal date and a product
//! definition (term length and unit, rates, renewal policy).  Calendar
//! arithmetic, fixed-point decimal rounding, request fingerprinting, the
//! result cache and the batch-computation protocol are all verified here.

use vstd::prelude::*;

pub mod cache;
pub mod calculator;
pub mod config;
pub mod date;
pub mod decimal;
pub mod session;

verus! {

} // verus!
