//! Underlying negative infinity values of q objects. Real and float values are given by their
//! IEEE-754 bit patterns.

use vstd::prelude::*;

verus! {

/// Negative infinity value of short.
pub const H: i16 = -32767;
/// Negative infinity value of int family, i.e., int, month, date, minute, second and time.
pub const I: i32 = -2147483647;
/// Negative infinity value of long family, i.e., long, timestamp and timespan.
pub const J: i64 = -9223372036854775807;
/// Negative infinity value of real, as its bit pattern.
pub const E: u32 = 0xff80_0000;
/// Negative infinity value of float family, i.e., float and datetime, as its bit pattern.
pub const F: u64 = 0xfff0_0000_0000_0000;

} // verus!
