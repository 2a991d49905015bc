//! Infinite values of q types as they are set on the Rust side. Real and float values are
//! given by their IEEE-754 bit patterns.

use super::calendar::{Date, DateTime, Duration};
use super::qtime::{QINF_MONTH_DAYS, QINF_TIMESTAMP_NANOS};
use crate::qinf_base;
use vstd::prelude::*;

verus! {

/// Infinity value of short (`0Wh`).
pub const SHORT: i16 = qinf_base::H;
/// Infinity value of int (`0Wi`).
pub const INT: i32 = qinf_base::I;
/// Infinity value of long (`0W`).
pub const LONG: i64 = qinf_base::J;
/// Infinity value of real (`0We`), as its bit pattern.
pub const REAL: u32 = qinf_base::E;
/// Infinity value of float (`0w`), as its bit pattern.
pub const FLOAT: u64 = qinf_base::F;

/// Infinity value of timestamp (`0Wp`): 2292.04.10D23:47:16.854775807.
#[allow(non_snake_case)]
pub fn TIMESTAMP() -> (r: DateTime)
    ensures
        r@ == QINF_TIMESTAMP_NANOS,
{
    match DateTime::from_timestamp_nanos(QINF_TIMESTAMP_NANOS) {
        Some(t) => t,
        None => DateTime::max_value(),
    }
}

/// Infinity value of month (`0Wm`): 30 days before the latest supported date.
#[allow(non_snake_case)]
pub fn MONTH() -> (r: Date)
    ensures
        r@ == QINF_MONTH_DAYS,
{
    match Date::from_days(QINF_MONTH_DAYS) {
        Some(d) => d,
        None => Date::max_value(),
    }
}

/// Infinity value of date (`0Wd`): the latest supported date.
#[allow(non_snake_case)]
pub fn DATE() -> (r: Date)
    ensures
        r@ == super::calendar::MAX_DAYS,
{
    Date::max_value()
}

/// Infinity value of datetime (`0Wz`): 999999 nanoseconds before the latest supported point in time.
#[allow(non_snake_case)]
pub fn DATETIME() -> (r: DateTime)
    ensures
        r@ == super::calendar::MAX_DATETIME_NANOS - 999999,
{
    match DateTime::from_timestamp_nanos(super::calendar::MAX_DATETIME_NANOS - 999999) {
        Some(t) => t,
        None => DateTime::max_value(),
    }
}

/// Infinity value of timespan (`0Wn`).
#[allow(non_snake_case)]
pub fn TIMESPAN() -> (r: Duration)
    ensures
        r@ == qinf_base::J,
{
    Duration::nanoseconds(qinf_base::J)
}

/// Infinity value of minute (`0Wu`).
#[allow(non_snake_case)]
pub fn MINUTE() -> (r: Duration)
    ensures
        r@ == qinf_base::I * 60_000_000_000,
{
    Duration::minutes(qinf_base::I as i64)
}

/// Infinity value of second (`0Wv`).
#[allow(non_snake_case)]
pub fn SECOND() -> (r: Duration)
    ensures
        r@ == qinf_base::I * 1_000_000_000,
{
    Duration::seconds(qinf_base::I as i64)
}

/// Infinity value of time (`0Wt`).
#[allow(non_snake_case)]
pub fn TIME() -> (r: Duration)
    ensures
        r@ == qinf_base::I * 1_000_000,
{
    Duration::milliseconds(qinf_base::I as i64)
}

} // verus!
