//! Type indicators of q objects. An atom has a negative indicator and the list of the same
//! element type the positive one.

use vstd::prelude::*;

verus! {

/// Type indicator of q error
pub const ERROR: i8 = -128;
/// Type indicator of q enum atom.
pub const ENUM_ATOM: i8 = -20;
/// Type indicator of q time atom.
pub const TIME_ATOM: i8 = -19;
/// Type indicator of q second atom.
pub const SECOND_ATOM: i8 = -18;
/// Type indicator of q minute atom.
pub const MINUTE_ATOM: i8 = -17;
/// Type indicator of q timespan atom.
pub const TIMESPAN_ATOM: i8 = -16;
/// Type indicator of q datetime atom.
pub const DATETIME_ATOM: i8 = -15;
/// Type indicator of q date atom.
pub const DATE_ATOM: i8 = -14;
/// Type indicator of q month atom.
pub const MONTH_ATOM: i8 = -13;
/// Type indicator of q timestamp atom.
pub const TIMESTAMP_ATOM: i8 = -12;
/// Type indicator of q symbol atom.
pub const SYMBOL_ATOM: i8 = -11;
/// Type indicator of q char atom.
pub const CHAR: i8 = -10;
/// Type indicator of q float atom.
pub const FLOAT_ATOM: i8 = -9;
/// Type indicator of q real atom.
pub const REAL_ATOM: i8 = -8;
/// Type indicator of q long atom.
pub const LONG_ATOM: i8 = -7;
/// Type indicator of q int atom.
pub const INT_ATOM: i8 = -6;
/// Type indicator of q short atom.
pub const SHORT_ATOM: i8 = -5;
/// Type indicator of q byte atom.
pub const BYTE_ATOM: i8 = -4;
/// Type indicator of q GUID atom.
pub const GUID_ATOM: i8 = -2;
/// Type indicator of q bool atom.
pub const BOOL_ATOM: i8 = -1;
/// Type indicator of q mixed list.
pub const COMPOUND_LIST: i8 = 0;
/// Type indicator of q bool list.
pub const BOOL_LIST: i8 = 1;
/// Type indicator of q GUID list.
pub const GUID_LIST: i8 = 2;
/// Type indicator of q byte list.
pub const BYTE_LIST: i8 = 4;
/// Type indicator of q short list.
pub const SHORT_LIST: i8 = 5;
/// Type indicator of q int list.
pub const INT_LIST: i8 = 6;
/// Type indicator of q long list.
pub const LONG_LIST: i8 = 7;
/// Type indicator of q real list.
pub const REAL_LIST: i8 = 8;
/// Type indicator of q float list.
pub const FLOAT_LIST: i8 = 9;
/// Type indicator of q string (char list).
pub const STRING: i8 = 10;
/// Type indicator of q symbol list.
pub const SYMBOL_LIST: i8 = 11;
/// Type indicator of q timestamp list.
pub const TIMESTAMP_LIST: i8 = 12;
/// Type indicator of q month list.
pub const MONTH_LIST: i8 = 13;
/// Type indicator of q date list.
pub const DATE_LIST: i8 = 14;
/// Type indicator of q datetime list.
pub const DATETIME_LIST: i8 = 15;
/// Type indicator of q timespan list.
pub const TIMESPAN_LIST: i8 = 16;
/// Type indicator of q minute list.
pub const MINUTE_LIST: i8 = 17;
/// Type indicator of q second list.
pub const SECOND_LIST: i8 = 18;
/// Type indicator of q time list.
pub const TIME_LIST: i8 = 19;
/// Type indicator of q enum list.
pub const ENUM_LIST: i8 = 20;
/// Type indicator of q table.
pub const TABLE: i8 = 98;
/// Type indicator of q dictionary: keys at index 0 and values at index 1.
pub const DICTIONARY: i8 = 99;
/// Type indicator of q general null
pub const NULL: i8 = 101;
/// Type indicator of q foreign object.
pub const FOREIGN: i8 = 112;
/// Type indicator of q sorted dictionary: keys at index 0 and values at index 1.
pub const SORTED_DICTIONARY: i8 = 127;

} // verus!
