//! Names of the element types of q lists.

use super::error::Error;
use vstd::prelude::*;

verus! {

/// Result of the operations of this library.
pub type Result<T> = core::result::Result<T, Error>;

/// q symbol.
pub type S = String;

/// q char held as a byte of an attribute or a type.
pub type C = i8;

/// q bool and q byte.
pub type G = u8;

/// q short.
pub type H = i16;

/// q int.
pub type I = i32;

/// q long.
pub type J = i64;

/// q real, by the bit pattern of its `f32`.
pub type E = u32;

/// q float, by the bit pattern of its `f64`.
pub type F = u64;

/// q GUID.
pub type U = [G; 16];

} // verus!
