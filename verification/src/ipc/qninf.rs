//! Negative infinite values of q types as they are set on the Rust side. Real and float values are
//! given by their IEEE-754 bit patterns.

use super::calendar::{Date, DateTime, Duration};
use super::qtime::{QNINF_MONTH_DAYS, QNULL_TIMESTAMP_NANOS};
use crate::qninf_base;
use vstd::prelude::*;

verus! {

/// Negative infinity value of short (`-0Wh`).
pub const SHORT: i16 = qninf_base::H;
/// Negative infinity value of int (`-0Wi`).
pub const INT: i32 = qninf_base::I;
/// Negative infinity value of long (`-0W`).
pub const LONG: i64 = qninf_base::J;
/// Negative infinity value of real (`-0We`), as its bit pattern.
pub const REAL: u32 = qninf_base::E;
/// Negative infinity value of float (`-0w`), as its bit pattern.
pub const FLOAT: u64 = qninf_base::F;

/// Negative infinity value of timestamp (`-0Wp`): 1707.09.22D00:12:43.145224193.
#[allow(non_snake_case)]
pub fn TIMESTAMP() -> (r: DateTime)
    ensures
        r@ == QNULL_TIMESTAMP_NANOS + 1,
{
    match DateTime::from_timestamp_nanos(QNULL_TIMESTAMP_NANOS + 1) {
        Some(t) => t,
        None => DateTime::min_value(),
    }
}

/// Negative infinity value of month (`-0Wm`): 31 days after the earliest supported date.
#[allow(non_snake_case)]
pub fn MONTH() -> (r: Date)
    ensures
        r@ == QNINF_MONTH_DAYS,
{
    match Date::from_days(QNINF_MONTH_DAYS) {
        Some(d) => d,
        None => Date::min_value(),
    }
}

/// Negative infinity value of date (`-0Wd`): the day after the earliest supported date.
#[allow(non_snake_case)]
pub fn DATE() -> (r: Date)
    ensures
        r@ == super::calendar::MIN_DAYS + 1,
{
    match Date::from_days(super::calendar::MIN_DAYS + 1) {
        Some(d) => d,
        None => Date::min_value(),
    }
}

/// Negative infinity value of datetime (`-0Wz`): 1000000 nanoseconds after the earliest supported point in time.
#[allow(non_snake_case)]
pub fn DATETIME() -> (r: DateTime)
    ensures
        r@ == super::calendar::MIN_DATETIME_NANOS + 1000000,
{
    match DateTime::from_timestamp_nanos(super::calendar::MIN_DATETIME_NANOS + 1000000) {
        Some(t) => t,
        None => DateTime::min_value(),
    }
}
/// Negative infinity value of timespan (`-0Wn`).
#[allow(non_snake_case)]
pub fn TIMESPAN() -> (r: Duration)
    ensures
        r@ == qninf_base::J,
{
    Duration::nanoseconds(qninf_base::J)
}

/// Negative infinity value of minute (`-0Wu`).
#[allow(non_snake_case)]
pub fn MINUTE() -> (r: Duration)
    ensures
        r@ == qninf_base::I * 60_000_000_000,
{
    Duration::minutes(qninf_base::I as i64)
}

/// Negative infinity value of second (`-0Wv`).
#[allow(non_snake_case)]
pub fn SECOND() -> (r: Duration)
    ensures
        r@ == qninf_base::I * 1_000_000_000,
{
    Duration::seconds(qninf_base::I as i64)
}

/// Negative infinity value of time (`-0Wt`).
#[allow(non_snake_case)]
pub fn TIME() -> (r: Duration)
    ensures
        r@ == qninf_base::I * 1_000_000,
{
    Duration::milliseconds(qninf_base::I as i64)
}

} // verus!
