//! Null values of q types as they are set on the Rust side. Real and float values are given
//! by their IEEE-754 bit patterns.

use super::calendar::{Date, DateTime, Duration};
use super::qtime::QNULL_TIMESTAMP_NANOS;
use crate::qnull_base;
use vstd::prelude::*;

verus! {

/// Null value of GUID (`0Ng`).
pub const GUID: [u8; 16] = [0u8, 0, 0, 0, 0, 0, 0, 0, 0, 0, 0, 0, 0, 0, 0, 0];
/// Null value of short (`0Nh`).
pub const SHORT: i16 = qnull_base::H;
/// Null value of int (`0Ni`).
pub const INT: i32 = qnull_base::I;
/// Null value of long (`0N`).
pub const LONG: i64 = qnull_base::J;
/// Null value of real (`0Ne`), as its bit pattern.
pub const REAL: u32 = qnull_base::E;
/// Null value of float (`0n`), as its bit pattern.
pub const FLOAT: u64 = qnull_base::F;
/// Null value of char (`" "`).
pub const CHAR: char = qnull_base::C;

/// Null value of symbol (`` ` ``).
#[allow(non_snake_case)]
pub fn SYMBOL() -> (r: String)
    ensures
        r@ == Seq::<char>::empty(),
{
    String::new()
}

/// Null value of timestamp (`0Np`): 1707.09.22D00:12:43.145224192.
#[allow(non_snake_case)]
pub fn TIMESTAMP() -> (r: DateTime)
    ensures
        r@ == QNULL_TIMESTAMP_NANOS,
{
    match DateTime::from_timestamp_nanos(QNULL_TIMESTAMP_NANOS) {
        Some(t) => t,
        None => DateTime::min_value(),
    }
}

/// Null value of month (`0Nm`): the earliest supported date.
#[allow(non_snake_case)]
pub fn MONTH() -> (r: Date)
    ensures
        r@ == super::calendar::MIN_DAYS,
{
    Date::min_value()
}

/// Null value of date (`0Nd`): the earliest supported date.
#[allow(non_snake_case)]
pub fn DATE() -> (r: Date)
    ensures
        r@ == super::calendar::MIN_DAYS,
{
    Date::min_value()
}

/// Null value of datetime (`0Nz`): the earliest supported point in time.
#[allow(non_snake_case)]
pub fn DATETIME() -> (r: DateTime)
    ensures
        r@ == super::calendar::MIN_DATETIME_NANOS,
{
    DateTime::min_value()
}

/// Null value of timespan (`0Nn`).
#[allow(non_snake_case)]
pub fn TIMESPAN() -> (r: Duration)
    ensures
        r@ == qnull_base::J,
{
    Duration::nanoseconds(qnull_base::J)
}

/// Null value of minute (`0Nu`).
#[allow(non_snake_case)]
pub fn MINUTE() -> (r: Duration)
    ensures
        r@ == qnull_base::I * 60_000_000_000,
{
    Duration::minutes(qnull_base::I as i64)
}

/// Null value of second (`0Nv`).
#[allow(non_snake_case)]
pub fn SECOND() -> (r: Duration)
    ensures
        r@ == qnull_base::I * 1_000_000_000,
{
    Duration::seconds(qnull_base::I as i64)
}

/// Null value of time (`0Nt`).
#[allow(non_snake_case)]
pub fn TIME() -> (r: Duration)
    ensures
        r@ == qnull_base::I * 1_000_000,
{
    Duration::milliseconds(qnull_base::I as i64)
}

} // verus!
