//! Attributes of q lists.

use vstd::prelude::*;

verus! {

/// Indicates no attribute is appended on the q object.
pub const NONE: i8 = 0;
/// Sorted attribute, meaning that the q list is sorted in ascending order.
pub const SORTED: i8 = 1;
/// Unique attribute, meaning that each element in the q list has a unique value within the list.
pub const UNIQUE: i8 = 2;
/// Parted attribute, meaning that all the elements with the same value in the q object appear in a chunk.
pub const PARTED: i8 = 3;
/// Grouped attribute, meaning that the elements of the q list are grouped with their indices by values implicitly.
pub const GROUPED: i8 = 4;

} // verus!
