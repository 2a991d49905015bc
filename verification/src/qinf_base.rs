//! Underlying infinity values of q objects. Real and float values are given by their IEEE-754
//! bit patterns.

use vstd::prelude::*;

verus! {

/// Infinity value of short.
pub const H: i16 = 32767;
/// Infinity value of int family, i.e., int, month, date, minute, second and time.
pub const I: i32 = 2147483647;
/// Infinity value of long family, i.e., long, timestamp and timespan.
pub const J: i64 = 9223372036854775807;
/// Infinity value of real, as its bit pattern.
pub const E: u32 = 0x7f80_0000;
/// Infinity value of float family, i.e., float and datetime, as its bit pattern.
pub const F: u64 = 0x7ff0_0000_0000_0000;

} // verus!
