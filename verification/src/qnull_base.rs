//! Underlying null values of q objects. Real and float values are given by their IEEE-754
//! bit patterns.

use vstd::prelude::*;

verus! {

/// Null value of GUID.
pub const U: [u8; 16] = [0u8, 0, 0, 0, 0, 0, 0, 0, 0, 0, 0, 0, 0, 0, 0, 0];
/// Null value of short.
pub const H: i16 = -32768;
/// Null value of int family, i.e., int, month, date, minute, second and time.
pub const I: i32 = -2147483648;
/// Null value of long family, i.e., long, timestamp and timespan.
pub const J: i64 = -9223372036854775808;
/// Null value of real (a quiet NaN), as its bit pattern.
pub const E: u32 = 0x7fc0_0000;
/// Null value of float family, i.e., float and datetime (a quiet NaN), as its bit pattern.
pub const F: u64 = 0x7ff8_0000_0000_0000;
/// Null value of char.
pub const C: char = ' ';
/// Null value of string family (symbol, string).
pub const S: &'static str = "";

} // verus!
