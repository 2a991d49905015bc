//! Errors raised by operations on q objects and by IPC.

use super::object::K;
use crate::qtype;
use vstd::prelude::*;
use vstd::std_specs::cmp::PartialEqSpecImpl;

verus! {

/// Error of operations on q objects and of IPC.
#[derive(Debug)]
pub enum Error {
    /// A point in time out of the supported range.
    InvalidDateTime,
    /// An I/O failure, given by its message.
    IO(String),
    /// A cast of an atom to a wrong type.
    InvalidCast { from: &'static str, to: &'static str },
    /// A cast of a q object to a vector of a wrong element type.
    InvalidCastList(&'static str),
    /// Access beyond the end of a list.
    IndexOutOfBounds { length: usize, index: usize },
    /// An operation that the type of the object does not support.
    InvalidOperation {
        operator: &'static str,
        operand_type: &'static str,
        expected: Option<&'static str>,
    },
    /// Keys and values of a dictionary of different lengths.
    LengthMismatch { key_length: usize, value_length: usize },
    /// A column name that a table does not have.
    NoSuchColumn(String),
    /// An element of a wrong type added to a list.
    InsertWrongElement { is_insert: bool, destination: &'static str, expected: &'static str },
    /// Pop from an empty list.
    PopFromEmptyList,
    /// The object that an operation refused, handed back.
    Object(K),
}

/// The name of a q type indicator, as `type_to_string` gives it.
pub open spec fn type_label(qtype: i8) -> &'static str {
    if qtype == qtype::BOOL_ATOM {
        "bool"
    } else if qtype == qtype::GUID_ATOM {
        "guid"
    } else if qtype == qtype::BYTE_ATOM {
        "byte"
    } else if qtype == qtype::SHORT_ATOM {
        "short"
    } else if qtype == qtype::INT_ATOM {
        "int"
    } else if qtype == qtype::LONG_ATOM {
        "long"
    } else if qtype == qtype::REAL_ATOM {
        "real"
    } else if qtype == qtype::FLOAT_ATOM {
        "float"
    } else if qtype == qtype::CHAR {
        "char"
    } else if qtype == qtype::SYMBOL_ATOM {
        "symbol"
    } else if qtype == qtype::TIMESTAMP_ATOM {
        "timestamp"
    } else if qtype == qtype::MONTH_ATOM {
        "month"
    } else if qtype == qtype::DATE_ATOM {
        "date"
    } else if qtype == qtype::DATETIME_ATOM {
        "datetime"
    } else if qtype == qtype::TIMESPAN_ATOM {
        "timespan"
    } else if qtype == qtype::MINUTE_ATOM {
        "minute"
    } else if qtype == qtype::SECOND_ATOM {
        "second"
    } else if qtype == qtype::TIME_ATOM {
        "time"
    } else if qtype == qtype::COMPOUND_LIST {
        "compound list"
    } else if qtype == qtype::BOOL_LIST {
        "bool list"
    } else if qtype == qtype::GUID_LIST {
        "guid list"
    } else if qtype == qtype::BYTE_LIST {
        "byte list"
    } else if qtype == qtype::SHORT_LIST {
        "short list"
    } else if qtype == qtype::INT_LIST {
        "int list"
    } else if qtype == qtype::LONG_LIST {
        "long list"
    } else if qtype == qtype::REAL_LIST {
        "real list"
    } else if qtype == qtype::FLOAT_LIST {
        "float list"
    } else if qtype == qtype::STRING {
        "string"
    } else if qtype == qtype::SYMBOL_LIST {
        "symbol list"
    } else if qtype == qtype::TIMESTAMP_LIST {
        "timestamp list"
    } else if qtype == qtype::MONTH_LIST {
        "month list"
    } else if qtype == qtype::DATE_LIST {
        "date list"
    } else if qtype == qtype::DATETIME_LIST {
        "datetime list"
    } else if qtype == qtype::TIMESPAN_LIST {
        "timespan list"
    } else if qtype == qtype::MINUTE_LIST {
        "minute list"
    } else if qtype == qtype::SECOND_LIST {
        "second list"
    } else if qtype == qtype::TIME_LIST {
        "time list"
    } else if qtype == qtype::TABLE {
        "table"
    } else if qtype == qtype::DICTIONARY {
        "dictionary"
    } else if qtype == qtype::NULL {
        "null"
    } else if qtype == qtype::SORTED_DICTIONARY {
        "sorted dictionary"
    } else if qtype == qtype::ERROR {
        "error"
    } else {
        "not supported"
    }
}

/// The name of a q type indicator; `"not supported"` for an indicator that IPC does not handle.
pub fn type_to_string(qtype: i8) -> (r: &'static str)
    ensures
        r == type_label(qtype),
{
    if qtype == qtype::BOOL_ATOM {
        "bool"
    } else if qtype == qtype::GUID_ATOM {
        "guid"
    } else if qtype == qtype::BYTE_ATOM {
        "byte"
    } else if qtype == qtype::SHORT_ATOM {
        "short"
    } else if qtype == qtype::INT_ATOM {
        "int"
    } else if qtype == qtype::LONG_ATOM {
        "long"
    } else if qtype == qtype::REAL_ATOM {
        "real"
    } else if qtype == qtype::FLOAT_ATOM {
        "float"
    } else if qtype == qtype::CHAR {
        "char"
    } else if qtype == qtype::SYMBOL_ATOM {
        "symbol"
    } else if qtype == qtype::TIMESTAMP_ATOM {
        "timestamp"
    } else if qtype == qtype::MONTH_ATOM {
        "month"
    } else if qtype == qtype::DATE_ATOM {
        "date"
    } else if qtype == qtype::DATETIME_ATOM {
        "datetime"
    } else if qtype == qtype::TIMESPAN_ATOM {
        "timespan"
    } else if qtype == qtype::MINUTE_ATOM {
        "minute"
    } else if qtype == qtype::SECOND_ATOM {
        "second"
    } else if qtype == qtype::TIME_ATOM {
        "time"
    } else if qtype == qtype::COMPOUND_LIST {
        "compound list"
    } else if qtype == qtype::BOOL_LIST {
        "bool list"
    } else if qtype == qtype::GUID_LIST {
        "guid list"
    } else if qtype == qtype::BYTE_LIST {
        "byte list"
    } else if qtype == qtype::SHORT_LIST {
        "short list"
    } else if qtype == qtype::INT_LIST {
        "int list"
    } else if qtype == qtype::LONG_LIST {
        "long list"
    } else if qtype == qtype::REAL_LIST {
        "real list"
    } else if qtype == qtype::FLOAT_LIST {
        "float list"
    } else if qtype == qtype::STRING {
        "string"
    } else if qtype == qtype::SYMBOL_LIST {
        "symbol list"
    } else if qtype == qtype::TIMESTAMP_LIST {
        "timestamp list"
    } else if qtype == qtype::MONTH_LIST {
        "month list"
    } else if qtype == qtype::DATE_LIST {
        "date list"
    } else if qtype == qtype::DATETIME_LIST {
        "datetime list"
    } else if qtype == qtype::TIMESPAN_LIST {
        "timespan list"
    } else if qtype == qtype::MINUTE_LIST {
        "minute list"
    } else if qtype == qtype::SECOND_LIST {
        "second list"
    } else if qtype == qtype::TIME_LIST {
        "time list"
    } else if qtype == qtype::TABLE {
        "table"
    } else if qtype == qtype::DICTIONARY {
        "dictionary"
    } else if qtype == qtype::NULL {
        "null"
    } else if qtype == qtype::SORTED_DICTIONARY {
        "sorted dictionary"
    } else if qtype == qtype::ERROR {
        "error"
    } else {
        "not supported"
    }
}

/// `InvalidCast` from the type `from` to the type `to`.
pub open spec fn invalid_cast_error(from: i8, to: i8) -> Error {
    Error::InvalidCast { from: type_label(from), to: type_label(to) }
}

/// `InvalidOperation` of `operator` on the type `operand_type`.
pub open spec fn invalid_operation_error(
    operator: &'static str,
    operand_type: i8,
    expected: Option<i8>,
) -> Error {
    Error::InvalidOperation {
        operator,
        operand_type: type_label(operand_type),
        expected: match expected {
            Some(t) => Some(type_label(t)),
            None => None,
        },
    }
}

/// `InsertWrongElement` of an element to a list of the type `destination`.
pub open spec fn insert_wrong_element_error(
    is_insert: bool,
    destination: i8,
    expected: &'static str,
) -> Error {
    Error::InsertWrongElement { is_insert, destination: type_label(destination), expected }
}

impl Error {
    pub(crate) fn invalid_cast(from: i8, to: i8) -> (r: Self)
        ensures
            r == invalid_cast_error(from, to),
    {
        Self::InvalidCast { from: type_to_string(from), to: type_to_string(to) }
    }

    pub(crate) fn invalid_cast_list(from: i8) -> (r: Self)
        ensures
            r == Error::InvalidCastList(type_label(from)),
    {
        Self::InvalidCastList(type_to_string(from))
    }

    pub(crate) fn index_out_of_bounds(length: usize, index: usize) -> (r: Self)
        ensures
            r == (Error::IndexOutOfBounds { length, index }),
    {
        Self::IndexOutOfBounds { length, index }
    }

    pub(crate) fn invalid_operation(
        operator: &'static str,
        operand_type: i8,
        expected: Option<i8>,
    ) -> (r: Self)
        ensures
            r == invalid_operation_error(operator, operand_type, expected),
    {
        let expected_name = match expected {
            Some(type_id) => Some(type_to_string(type_id)),
            None => None,
        };
        Self::InvalidOperation { operator, operand_type: type_to_string(operand_type), expected: expected_name }
    }

    pub(crate) fn length_mismatch(key_length: usize, value_length: usize) -> (r: Self)
        ensures
            r == (Error::LengthMismatch { key_length, value_length }),
    {
        Self::LengthMismatch { key_length, value_length }
    }

    pub(crate) fn no_such_column(column: String) -> (r: Self)
        ensures
            r == Error::NoSuchColumn(column),
    {
        Self::NoSuchColumn(column)
    }

    pub(crate) fn insert_wrong_element(
        is_insert: bool,
        destination: i8,
        expected: &'static str,
    ) -> (r: Self)
        ensures
            r == insert_wrong_element_error(is_insert, destination, expected),
    {
        Self::InsertWrongElement { is_insert, destination: type_to_string(destination), expected }
    }

    pub(crate) fn pop_from_empty_list() -> (r: Self)
        ensures
            r == Error::PopFromEmptyList,
    {
        Self::PopFromEmptyList
    }

    pub(crate) fn object(returned: K) -> (r: Self)
        ensures
            r == Error::Object(returned),
    {
        Self::Object(returned)
    }

    /// The object held by an `Object` error, if this is one.
    pub fn into_inner(self) -> (r: Option<K>)
        ensures
            r == match self {
                Error::Object(object) => Some(object),
                _ => None,
            },
    {
        match self {
            Self::Object(object) => Some(object),
            _ => None,
        }
    }
}

/// Whether two strings hold the same characters.
pub fn str_eq(a: &str, b: &str) -> (r: bool)
    ensures
        r == (a@ == b@),
{
    let x = a.as_bytes();
    let y = b.as_bytes();
    proof {
        vstd::utf8::encode_utf8_decode_utf8(a@);
        vstd::utf8::encode_utf8_decode_utf8(b@);
    }
    if x.len() != y.len() {
        return false;
    }
    let mut i: usize = 0;
    while i < x.len()
        invariant
            x.len() == y.len(),
            x@ == vstd::utf8::encode_utf8(a@),
            y@ == vstd::utf8::encode_utf8(b@),
            i <= x.len(),
            forall|j: int| 0 <= j < i ==> x@[j] == y@[j],
        decreases x.len() - i,
    {
        if x[i] != y[i] {
            assert(x@[i as int] != y@[i as int]);
            return false;
        }
        i += 1;
    }
    assert(x@ =~= y@);
    true
}

fn opt_str_eq(a: &Option<&'static str>, b: &Option<&'static str>) -> (r: bool)
    ensures
        r == match (a, b) {
            (Some(x), Some(y)) => x@ == y@,
            (None, None) => true,
            _ => false,
        },
{
    match (a, b) {
        (Some(x), Some(y)) => str_eq(x, y),
        (None, None) => true,
        _ => false,
    }
}

impl PartialEq for Error {
    fn eq(&self, other: &Error) -> (r: bool) {
        match (self, other) {
            (Self::IO(left), Self::IO(right)) => str_eq(left.as_str(), right.as_str()),
            (Self::InvalidCast { from: f, to: t }, Self::InvalidCast { from: f2, to: t2 }) => {
                str_eq(f, f2) && str_eq(t, t2)
            },
            (Self::InvalidCastList(left), Self::InvalidCastList(right)) => str_eq(left, right),
            (
                Self::IndexOutOfBounds { length: l, index: i },
                Self::IndexOutOfBounds { length: l2, index: i2 },
            ) => *l == *l2 && *i == *i2,
            (
                Self::InvalidOperation { operator: o, operand_type: ot, expected: e },
                Self::InvalidOperation { operator: o2, operand_type: ot2, expected: e2 },
            ) => str_eq(o, o2) && str_eq(ot, ot2) && opt_str_eq(e, e2),
            (
                Self::LengthMismatch { key_length: k, value_length: l },
                Self::LengthMismatch { key_length: k2, value_length: l2 },
            ) => *k == *k2 && *l == *l2,
            (Self::NoSuchColumn(left), Self::NoSuchColumn(right)) => str_eq(left.as_str(), right.as_str()),
            (
                Self::InsertWrongElement { is_insert: i, destination: d, expected: e },
                Self::InsertWrongElement { is_insert: i2, destination: d2, expected: e2 },
            ) => *i == *i2 && str_eq(d, d2) && str_eq(e, e2),
            (Self::Object(left), Self::Object(right)) => left.qtype == right.qtype
                && left.attribute == right.attribute,
            (Self::PopFromEmptyList, Self::PopFromEmptyList) => true,
            (Self::InvalidDateTime, Self::InvalidDateTime) => true,
            _ => false,
        }
    }
}

impl PartialEqSpecImpl for Error {
    open spec fn obeys_eq_spec() -> bool {
        true
    }

    open spec fn eq_spec(&self, other: &Error) -> bool {
        match (self, other) {
            (Error::IO(left), Error::IO(right)) => left@ == right@,
            (Error::InvalidCast { from: f, to: t }, Error::InvalidCast { from: f2, to: t2 }) => f@
                == f2@ && t@ == t2@,
            (Error::InvalidCastList(left), Error::InvalidCastList(right)) => left@ == right@,
            (
                Error::IndexOutOfBounds { length: l, index: i },
                Error::IndexOutOfBounds { length: l2, index: i2 },
            ) => l == l2 && i == i2,
            (
                Error::InvalidOperation { operator: o, operand_type: ot, expected: e },
                Error::InvalidOperation { operator: o2, operand_type: ot2, expected: e2 },
            ) => o@ == o2@ && ot@ == ot2@ && match (e, e2) {
                (Some(x), Some(y)) => x@ == y@,
                (None, None) => true,
                _ => false,
            },
            (
                Error::LengthMismatch { key_length: k, value_length: l },
                Error::LengthMismatch { key_length: k2, value_length: l2 },
            ) => k == k2 && l == l2,
            (Error::NoSuchColumn(left), Error::NoSuchColumn(right)) => left@ == right@,
            (
                Error::InsertWrongElement { is_insert: i, destination: d, expected: e },
                Error::InsertWrongElement { is_insert: i2, destination: d2, expected: e2 },
            ) => i == i2 && d@ == d2@ && e@ == e2@,
            (Error::Object(left), Error::Object(right)) => left.qtype == right.qtype
                && left.attribute == right.attribute,
            (Error::PopFromEmptyList, Error::PopFromEmptyList) => true,
            (Error::InvalidDateTime, Error::InvalidDateTime) => true,
            _ => false,
        }
    }
}

} // verus!
