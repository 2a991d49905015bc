//! Reading the value of a q object: atoms, strings, dictionaries of tables and the vectors
//! of lists.

use super::calendar::{Date, DateTime, Duration};
use super::error::{Error, invalid_cast_error, type_label};
use super::object::{is_byte_atom_type, is_int_atom_type, is_long_atom_type, is_vector_type, K, KList, KValue};
use super::qtime::{
    datetime_of_q_timestamp, date_of_q, month_of_q, q_date_convertible, q_date_to_date,
    q_minute_to_duration, q_month_convertible, q_month_to_date, q_second_to_duration,
    q_time_to_duration, q_timespan_to_duration, q_timestamp_to_datetime,
};
use crate::qtype;
use vstd::prelude::*;

verus! {

/// What a getter gives: `value` when the object is of an accepted type, else the error of a
/// cast from the object's type to `to`.
pub open spec fn cast_result<T>(k: &K, accepted: bool, value: T, to: i8) -> Result<T, Error> {
    if accepted {
        Ok(value)
    } else {
        Err(invalid_cast_error(k.qtype, to))
    }
}

/// Whether `k` is an atom of one of the types `accepted` whose value is a byte.
pub open spec fn byte_atom(k: &K, accepted: bool) -> bool {
    accepted && k.value is Byte
}

/// Whether `k` is an atom of one of the types `accepted` whose value is an int.
pub open spec fn int_atom(k: &K, accepted: bool) -> bool {
    accepted && k.value is Int
}

/// Whether `k` is an atom of one of the types `accepted` whose value is a long.
pub open spec fn long_atom(k: &K, accepted: bool) -> bool {
    accepted && k.value is Long
}

/// Whether `k` is an object of type `t` whose value is text.
pub open spec fn text_of_type(k: &K, t: i8) -> bool {
    k.qtype == t && k.value is Symbol
}

/// The error of `as_vec` and `as_mut_vec` for the type of `k`.
pub open spec fn cast_list_error(k: &K) -> Error {
    Error::InvalidCastList(type_label(k.qtype))
}

/// Element types of the vectors that q lists hold.
pub trait ListItem: Sized {
    /// The elements of the vector of this element type that `k` holds, if it holds one.
    spec fn held(k: &K) -> Option<Seq<Self>>;

    /// `k` with its vector replaced by `v` (meaningful where `held(k)` is `Some`).
    spec fn with_held(k: K, v: Vec<Self>) -> K;

    /// The vector that `k` holds, if it is of this element type.
    fn held_ref(k: &K) -> (r: Option<&Vec<Self>>)
        ensures
            match r {
                Some(v) => Self::held(k) == Some(v@),
                None => Self::held(k) is None,
            },
    ;

    /// The vector that `k` holds, if it is of this element type, to be modified in place.
    fn held_mut(k: &mut K) -> (r: Option<&mut Vec<Self>>)
        ensures
            match r {
                Some(v) => Self::held(old(k)) == Some(v@) && *final(k) == Self::with_held(
                    *old(k),
                    *final(v),
                ),
                None => Self::held(old(k)) is None && *final(k) == *old(k),
            },
    ;
}

impl ListItem for u8 {
    open spec fn held(k: &K) -> Option<Seq<u8>> {
        match k.value {
            KValue::List(KList::Byte(v)) => Some(v@),
            _ => None,
        }
    }

    open spec fn with_held(k: K, v: Vec<u8>) -> K {
        K { qtype: k.qtype, attribute: k.attribute, value: KValue::List(KList::Byte(v)) }
    }

    fn held_ref(k: &K) -> (r: Option<&Vec<u8>>) {
        match &k.value {
            KValue::List(KList::Byte(v)) => Some(v),
            _ => None,
        }
    }

    fn held_mut(k: &mut K) -> (r: Option<&mut Vec<u8>>) {
        match &mut k.value {
            KValue::List(KList::Byte(v)) => Some(v),
            _ => None,
        }
    }
}

impl ListItem for [u8; 16] {
    open spec fn held(k: &K) -> Option<Seq<[u8; 16]>> {
        match k.value {
            KValue::List(KList::Guid(v)) => Some(v@),
            _ => None,
        }
    }

    open spec fn with_held(k: K, v: Vec<[u8; 16]>) -> K {
        K { qtype: k.qtype, attribute: k.attribute, value: KValue::List(KList::Guid(v)) }
    }

    fn held_ref(k: &K) -> (r: Option<&Vec<[u8; 16]>>) {
        match &k.value {
            KValue::List(KList::Guid(v)) => Some(v),
            _ => None,
        }
    }

    fn held_mut(k: &mut K) -> (r: Option<&mut Vec<[u8; 16]>>) {
        match &mut k.value {
            KValue::List(KList::Guid(v)) => Some(v),
            _ => None,
        }
    }
}

impl ListItem for i16 {
    open spec fn held(k: &K) -> Option<Seq<i16>> {
        match k.value {
            KValue::List(KList::Short(v)) => Some(v@),
            _ => None,
        }
    }

    open spec fn with_held(k: K, v: Vec<i16>) -> K {
        K { qtype: k.qtype, attribute: k.attribute, value: KValue::List(KList::Short(v)) }
    }

    fn held_ref(k: &K) -> (r: Option<&Vec<i16>>) {
        match &k.value {
            KValue::List(KList::Short(v)) => Some(v),
            _ => None,
        }
    }

    fn held_mut(k: &mut K) -> (r: Option<&mut Vec<i16>>) {
        match &mut k.value {
            KValue::List(KList::Short(v)) => Some(v),
            _ => None,
        }
    }
}

impl ListItem for i32 {
    open spec fn held(k: &K) -> Option<Seq<i32>> {
        match k.value {
            KValue::List(KList::Int(v)) => Some(v@),
            _ => None,
        }
    }

    open spec fn with_held(k: K, v: Vec<i32>) -> K {
        K { qtype: k.qtype, attribute: k.attribute, value: KValue::List(KList::Int(v)) }
    }

    fn held_ref(k: &K) -> (r: Option<&Vec<i32>>) {
        match &k.value {
            KValue::List(KList::Int(v)) => Some(v),
            _ => None,
        }
    }

    fn held_mut(k: &mut K) -> (r: Option<&mut Vec<i32>>) {
        match &mut k.value {
            KValue::List(KList::Int(v)) => Some(v),
            _ => None,
        }
    }
}

impl ListItem for i64 {
    open spec fn held(k: &K) -> Option<Seq<i64>> {
        match k.value {
            KValue::List(KList::Long(v)) => Some(v@),
            _ => None,
        }
    }

    open spec fn with_held(k: K, v: Vec<i64>) -> K {
        K { qtype: k.qtype, attribute: k.attribute, value: KValue::List(KList::Long(v)) }
    }

    fn held_ref(k: &K) -> (r: Option<&Vec<i64>>) {
        match &k.value {
            KValue::List(KList::Long(v)) => Some(v),
            _ => None,
        }
    }

    fn held_mut(k: &mut K) -> (r: Option<&mut Vec<i64>>) {
        match &mut k.value {
            KValue::List(KList::Long(v)) => Some(v),
            _ => None,
        }
    }
}

impl ListItem for u32 {
    open spec fn held(k: &K) -> Option<Seq<u32>> {
        match k.value {
            KValue::List(KList::Real(v)) => Some(v@),
            _ => None,
        }
    }

    open spec fn with_held(k: K, v: Vec<u32>) -> K {
        K { qtype: k.qtype, attribute: k.attribute, value: KValue::List(KList::Real(v)) }
    }

    fn held_ref(k: &K) -> (r: Option<&Vec<u32>>) {
        match &k.value {
            KValue::List(KList::Real(v)) => Some(v),
            _ => None,
        }
    }

    fn held_mut(k: &mut K) -> (r: Option<&mut Vec<u32>>) {
        match &mut k.value {
            KValue::List(KList::Real(v)) => Some(v),
            _ => None,
        }
    }
}

impl ListItem for u64 {
    open spec fn held(k: &K) -> Option<Seq<u64>> {
        match k.value {
            KValue::List(KList::Float(v)) => Some(v@),
            _ => None,
        }
    }

    open spec fn with_held(k: K, v: Vec<u64>) -> K {
        K { qtype: k.qtype, attribute: k.attribute, value: KValue::List(KList::Float(v)) }
    }

    fn held_ref(k: &K) -> (r: Option<&Vec<u64>>) {
        match &k.value {
            KValue::List(KList::Float(v)) => Some(v),
            _ => None,
        }
    }

    fn held_mut(k: &mut K) -> (r: Option<&mut Vec<u64>>) {
        match &mut k.value {
            KValue::List(KList::Float(v)) => Some(v),
            _ => None,
        }
    }
}

impl ListItem for String {
    open spec fn held(k: &K) -> Option<Seq<String>> {
        match k.value {
            KValue::List(KList::Symbol(v)) => Some(v@),
            _ => None,
        }
    }

    open spec fn with_held(k: K, v: Vec<String>) -> K {
        K { qtype: k.qtype, attribute: k.attribute, value: KValue::List(KList::Symbol(v)) }
    }

    fn held_ref(k: &K) -> (r: Option<&Vec<String>>) {
        match &k.value {
            KValue::List(KList::Symbol(v)) => Some(v),
            _ => None,
        }
    }

    fn held_mut(k: &mut K) -> (r: Option<&mut Vec<String>>) {
        match &mut k.value {
            KValue::List(KList::Symbol(v)) => Some(v),
            _ => None,
        }
    }
}

impl ListItem for K {
    open spec fn held(k: &K) -> Option<Seq<K>> {
        match k.value {
            KValue::List(KList::Compound(v)) => Some(v@),
            _ => None,
        }
    }

    open spec fn with_held(k: K, v: Vec<K>) -> K {
        K { qtype: k.qtype, attribute: k.attribute, value: KValue::List(KList::Compound(v)) }
    }

    fn held_ref(k: &K) -> (r: Option<&Vec<K>>) {
        match &k.value {
            KValue::List(KList::Compound(v)) => Some(v),
            _ => None,
        }
    }

    fn held_mut(k: &mut K) -> (r: Option<&mut Vec<K>>) {
        match &mut k.value {
            KValue::List(KList::Compound(v)) => Some(v),
            _ => None,
        }
    }
}

impl K {
    /// Get an underlying q bool.
    pub fn get_bool(&self) -> (r: Result<bool, Error>)
        ensures
            r == cast_result(
                self,
                byte_atom(self, self.qtype == qtype::BOOL_ATOM),
                self.value->Byte_0 != 0,
                qtype::BOOL_ATOM,
            ),
    {
        match (self.qtype, &self.value) {
            (qtype::BOOL_ATOM, KValue::Byte(boolean)) => Ok(*boolean != 0),
            _ => Err(Error::invalid_cast(self.qtype, qtype::BOOL_ATOM)),
        }
    }

    /// Get an underlying q GUID.
    pub fn get_guid(&self) -> (r: Result<[u8; 16], Error>)
        ensures
            r == cast_result(
                self,
                self.qtype == qtype::GUID_ATOM && self.value is Guid,
                self.value->Guid_0,
                qtype::GUID_ATOM,
            ),
    {
        match (self.qtype, &self.value) {
            (qtype::GUID_ATOM, KValue::Guid(guid)) => Ok(*guid),
            _ => Err(Error::invalid_cast(self.qtype, qtype::GUID_ATOM)),
        }
    }

    /// Get an underlying q byte; a bool and a char give their byte too.
    pub fn get_byte(&self) -> (r: Result<u8, Error>)
        ensures
            r == cast_result(
                self,
                byte_atom(self, is_byte_atom_type(self.qtype)),
                self.value->Byte_0,
                qtype::BYTE_ATOM,
            ),
    {
        match &self.value {
            KValue::Byte(byte) => {
                if self.qtype == qtype::BOOL_ATOM || self.qtype == qtype::BYTE_ATOM || self.qtype
                    == qtype::CHAR {
                    Ok(*byte)
                } else {
                    Err(Error::invalid_cast(self.qtype, qtype::BYTE_ATOM))
                }
            },
            _ => Err(Error::invalid_cast(self.qtype, qtype::BYTE_ATOM)),
        }
    }

    /// Get an underlying q short.
    pub fn get_short(&self) -> (r: Result<i16, Error>)
        ensures
            r == cast_result(
                self,
                self.qtype == qtype::SHORT_ATOM && self.value is Short,
                self.value->Short_0,
                qtype::SHORT_ATOM,
            ),
    {
        match (self.qtype, &self.value) {
            (qtype::SHORT_ATOM, KValue::Short(short)) => Ok(*short),
            _ => Err(Error::invalid_cast(self.qtype, qtype::SHORT_ATOM)),
        }
    }

    /// Get an underlying q int; a month, a date, a minute, a second and a time give their int
    /// too.
    pub fn get_int(&self) -> (r: Result<i32, Error>)
        ensures
            r == cast_result(
                self,
                int_atom(self, is_int_atom_type(self.qtype)),
                self.value->Int_0,
                qtype::INT_ATOM,
            ),
    {
        match &self.value {
            KValue::Int(int_value) => {
                if self.qtype == qtype::INT_ATOM || self.qtype == qtype::MONTH_ATOM || self.qtype
                    == qtype::DATE_ATOM || self.qtype == qtype::MINUTE_ATOM || self.qtype
                    == qtype::SECOND_ATOM || self.qtype == qtype::TIME_ATOM {
                    Ok(*int_value)
                } else {
                    Err(Error::invalid_cast(self.qtype, qtype::INT_ATOM))
                }
            },
            _ => Err(Error::invalid_cast(self.qtype, qtype::INT_ATOM)),
        }
    }

    /// Get an underlying q long; a timestamp and a timespan give their long too.
    pub fn get_long(&self) -> (r: Result<i64, Error>)
        ensures
            r == cast_result(
                self,
                long_atom(self, is_long_atom_type(self.qtype)),
                self.value->Long_0,
                qtype::LONG_ATOM,
            ),
    {
        match &self.value {
            KValue::Long(long) => {
                if self.qtype == qtype::LONG_ATOM || self.qtype == qtype::TIMESTAMP_ATOM
                    || self.qtype == qtype::TIMESPAN_ATOM {
                    Ok(*long)
                } else {
                    Err(Error::invalid_cast(self.qtype, qtype::LONG_ATOM))
                }
            },
            _ => Err(Error::invalid_cast(self.qtype, qtype::LONG_ATOM)),
        }
    }

    /// Get an underlying q real, as its bit pattern.
    pub fn get_real(&self) -> (r: Result<u32, Error>)
        ensures
            r == cast_result(
                self,
                self.qtype == qtype::REAL_ATOM && self.value is Real,
                self.value->Real_0,
                qtype::REAL_ATOM,
            ),
    {
        match (self.qtype, &self.value) {
            (qtype::REAL_ATOM, KValue::Real(real_value)) => Ok(*real_value),
            _ => Err(Error::invalid_cast(self.qtype, qtype::REAL_ATOM)),
        }
    }

    /// Get an underlying q float, as its bit pattern; a datetime gives its float too.
    pub fn get_float(&self) -> (r: Result<u64, Error>)
        ensures
            r == cast_result(
                self,
                (self.qtype == qtype::FLOAT_ATOM || self.qtype == qtype::DATETIME_ATOM)
                    && self.value is Float,
                self.value->Float_0,
                qtype::FLOAT_ATOM,
            ),
    {
        match &self.value {
            KValue::Float(float) => {
                if self.qtype == qtype::FLOAT_ATOM || self.qtype == qtype::DATETIME_ATOM {
                    Ok(*float)
                } else {
                    Err(Error::invalid_cast(self.qtype, qtype::FLOAT_ATOM))
                }
            },
            _ => Err(Error::invalid_cast(self.qtype, qtype::FLOAT_ATOM)),
        }
    }

    /// Get an underlying q char.
    pub fn get_char(&self) -> (r: Result<char, Error>)
        ensures
            r == cast_result(
                self,
                byte_atom(self, self.qtype == qtype::CHAR),
                (self.value->Byte_0) as char,
                qtype::CHAR,
            ),
    {
        match (self.qtype, &self.value) {
            (qtype::CHAR, KValue::Byte(ch)) => Ok(*ch as char),
            _ => Err(Error::invalid_cast(self.qtype, qtype::CHAR)),
        }
    }

    /// Get an underlying q symbol.
    pub fn get_symbol(&self) -> (r: Result<&str, Error>)
        ensures
            match r {
                Ok(s) => text_of_type(self, qtype::SYMBOL_ATOM) && s@ == self.value->Symbol_0@,
                Err(e) => !text_of_type(self, qtype::SYMBOL_ATOM) && e == invalid_cast_error(
                    self.qtype,
                    qtype::SYMBOL_ATOM,
                ),
            },
    {
        match (self.qtype, &self.value) {
            (qtype::SYMBOL_ATOM, KValue::Symbol(symbol)) => Ok(symbol.as_str()),
            _ => Err(Error::invalid_cast(self.qtype, qtype::SYMBOL_ATOM)),
        }
    }

    /// Get an underlying q timestamp as a point in time.
    pub fn get_timestamp(&self) -> (r: Result<DateTime, Error>)
        ensures
            match r {
                Ok(t) => long_atom(self, self.qtype == qtype::TIMESTAMP_ATOM) && t@
                    == datetime_of_q_timestamp(self.value->Long_0),
                Err(e) => !long_atom(self, self.qtype == qtype::TIMESTAMP_ATOM) && e
                    == invalid_cast_error(self.qtype, qtype::TIMESTAMP_ATOM),
            },
    {
        match (self.qtype, &self.value) {
            (qtype::TIMESTAMP_ATOM, KValue::Long(nanos)) => Ok(q_timestamp_to_datetime(*nanos)),
            _ => Err(Error::invalid_cast(self.qtype, qtype::TIMESTAMP_ATOM)),
        }
    }

    /// Get an underlying q month as the date of its first day.
    pub fn get_month(&self) -> (r: Result<Date, Error>)
        requires
            int_atom(self, self.qtype == qtype::MONTH_ATOM) ==> q_month_convertible(
                self.value->Int_0,
            ),
        ensures
            match r {
                Ok(d) => int_atom(self, self.qtype == qtype::MONTH_ATOM) && d@ == month_of_q(
                    self.value->Int_0,
                ),
                Err(e) => !int_atom(self, self.qtype == qtype::MONTH_ATOM) && e
                    == invalid_cast_error(self.qtype, qtype::MONTH_ATOM),
            },
    {
        match (self.qtype, &self.value) {
            (qtype::MONTH_ATOM, KValue::Int(months)) => Ok(q_month_to_date(*months)),
            _ => Err(Error::invalid_cast(self.qtype, qtype::MONTH_ATOM)),
        }
    }

    /// Get an underlying q date.
    pub fn get_date(&self) -> (r: Result<Date, Error>)
        requires
            int_atom(self, self.qtype == qtype::DATE_ATOM) ==> q_date_convertible(
                self.value->Int_0,
            ),
        ensures
            match r {
                Ok(d) => int_atom(self, self.qtype == qtype::DATE_ATOM) && d@ == date_of_q(
                    self.value->Int_0,
                ),
                Err(e) => !int_atom(self, self.qtype == qtype::DATE_ATOM) && e
                    == invalid_cast_error(self.qtype, qtype::DATE_ATOM),
            },
    {
        match (self.qtype, &self.value) {
            (qtype::DATE_ATOM, KValue::Int(days)) => Ok(q_date_to_date(*days)),
            _ => Err(Error::invalid_cast(self.qtype, qtype::DATE_ATOM)),
        }
    }

    /// Get an underlying q datetime, as the bit pattern of the `f64` counting days since
    /// 2000.01.01.
    pub fn get_datetime(&self) -> (r: Result<u64, Error>)
        ensures
            r == cast_result(
                self,
                self.qtype == qtype::DATETIME_ATOM && self.value is Float,
                self.value->Float_0,
                qtype::DATETIME_ATOM,
            ),
    {
        match (self.qtype, &self.value) {
            (qtype::DATETIME_ATOM, KValue::Float(days)) => Ok(*days),
            _ => Err(Error::invalid_cast(self.qtype, qtype::DATETIME_ATOM)),
        }
    }

    /// Get an underlying q timespan as a duration.
    pub fn get_timespan(&self) -> (r: Result<Duration, Error>)
        ensures
            match r {
                Ok(d) => long_atom(self, self.qtype == qtype::TIMESPAN_ATOM) && d@
                    == self.value->Long_0,
                Err(e) => !long_atom(self, self.qtype == qtype::TIMESPAN_ATOM) && e
                    == invalid_cast_error(self.qtype, qtype::TIMESPAN_ATOM),
            },
    {
        match (self.qtype, &self.value) {
            (qtype::TIMESPAN_ATOM, KValue::Long(nanos)) => Ok(q_timespan_to_duration(*nanos)),
            _ => Err(Error::invalid_cast(self.qtype, qtype::TIMESPAN_ATOM)),
        }
    }

    /// Get an underlying q minute as a duration.
    pub fn get_minute(&self) -> (r: Result<Duration, Error>)
        ensures
            match r {
                Ok(d) => int_atom(self, self.qtype == qtype::MINUTE_ATOM) && d@ == self.value->Int_0
                    * 60_000_000_000,
                Err(e) => !int_atom(self, self.qtype == qtype::MINUTE_ATOM) && e
                    == invalid_cast_error(self.qtype, qtype::MINUTE_ATOM),
            },
    {
        match (self.qtype, &self.value) {
            (qtype::MINUTE_ATOM, KValue::Int(minutes)) => Ok(q_minute_to_duration(*minutes)),
            _ => Err(Error::invalid_cast(self.qtype, qtype::MINUTE_ATOM)),
        }
    }

    /// Get an underlying q second as a duration.
    pub fn get_second(&self) -> (r: Result<Duration, Error>)
        ensures
            match r {
                Ok(d) => int_atom(self, self.qtype == qtype::SECOND_ATOM) && d@ == self.value->Int_0
                    * 1_000_000_000,
                Err(e) => !int_atom(self, self.qtype == qtype::SECOND_ATOM) && e
                    == invalid_cast_error(self.qtype, qtype::SECOND_ATOM),
            },
    {
        match (self.qtype, &self.value) {
            (qtype::SECOND_ATOM, KValue::Int(seconds)) => Ok(q_second_to_duration(*seconds)),
            _ => Err(Error::invalid_cast(self.qtype, qtype::SECOND_ATOM)),
        }
    }

    /// Get an underlying q time as a duration.
    pub fn get_time(&self) -> (r: Result<Duration, Error>)
        ensures
            match r {
                Ok(d) => int_atom(self, self.qtype == qtype::TIME_ATOM) && d@ == self.value->Int_0
                    * 1_000_000,
                Err(e) => !int_atom(self, self.qtype == qtype::TIME_ATOM) && e
                    == invalid_cast_error(self.qtype, qtype::TIME_ATOM),
            },
    {
        match (self.qtype, &self.value) {
            (qtype::TIME_ATOM, KValue::Int(millis)) => Ok(q_time_to_duration(*millis)),
            _ => Err(Error::invalid_cast(self.qtype, qtype::TIME_ATOM)),
        }
    }

    /// Get the underlying dictionary of a table.
    pub fn get_dictionary(&self) -> (r: Result<&K, Error>)
        ensures
            match r {
                Ok(d) => self.qtype == qtype::TABLE && self.value is Table && *d
                    == *self.value->Table_0,
                Err(e) => !(self.qtype == qtype::TABLE && self.value is Table) && e
                    == invalid_cast_error(self.qtype, qtype::TABLE),
            },
    {
        match (self.qtype, &self.value) {
            (qtype::TABLE, KValue::Table(dictionary)) => Ok(&**dictionary),
            _ => Err(Error::invalid_cast(self.qtype, qtype::TABLE)),
        }
    }

    /// Get the underlying dictionary of a table, to be modified in place.
    pub fn get_mut_dictionary(&mut self) -> (r: Result<&mut K, Error>)
        ensures
            match r {
                Ok(d) => old(self).qtype == qtype::TABLE && old(self).value is Table && *d
                    == *old(self).value->Table_0 && *final(self) == (K {
                    qtype: old(self).qtype,
                    attribute: old(self).attribute,
                    value: KValue::Table(Box::new(*final(d))),
                }),
                Err(e) => !(old(self).qtype == qtype::TABLE && old(self).value is Table) && e
                    == invalid_cast_error(old(self).qtype, qtype::TABLE) && *final(self)
                    == *old(self),
            },
    {
        if self.qtype == qtype::TABLE {
            match &mut self.value {
                KValue::Table(dictionary) => Ok(&mut **dictionary),
                _ => Err(Error::invalid_cast(self.qtype, qtype::TABLE)),
            }
        } else {
            Err(Error::invalid_cast(self.qtype, qtype::TABLE))
        }
    }

    /// Get the message of a q error.
    pub fn get_error_string(&self) -> (r: Result<&str, Error>)
        ensures
            match r {
                Ok(s) => text_of_type(self, qtype::ERROR) && s@ == self.value->Symbol_0@,
                Err(e) => !text_of_type(self, qtype::ERROR) && e == invalid_cast_error(
                    self.qtype,
                    qtype::ERROR,
                ),
            },
    {
        match (self.qtype, &self.value) {
            (qtype::ERROR, KValue::Symbol(error)) => Ok(error.as_str()),
            _ => Err(Error::invalid_cast(self.qtype, qtype::ERROR)),
        }
    }

    /// Get a q string as `&str`.
    pub fn as_string(&self) -> (r: Result<&str, Error>)
        ensures
            match r {
                Ok(s) => text_of_type(self, qtype::STRING) && s@ == self.value->Symbol_0@,
                Err(e) => !text_of_type(self, qtype::STRING) && e == invalid_cast_error(
                    self.qtype,
                    qtype::STRING,
                ),
            },
    {
        match (self.qtype, &self.value) {
            (qtype::STRING, KValue::Symbol(string)) => Ok(string.as_str()),
            _ => Err(Error::invalid_cast(self.qtype, qtype::STRING)),
        }
    }

    /// Get a q string as `&mut String`, to be modified in place.
    pub fn as_mut_string(&mut self) -> (r: Result<&mut String, Error>)
        ensures
            match r {
                Ok(s) => text_of_type(old(self), qtype::STRING) && *s == old(self).value->Symbol_0
                    && *final(self) == (K {
                    qtype: old(self).qtype,
                    attribute: old(self).attribute,
                    value: KValue::Symbol(*final(s)),
                }),
                Err(e) => !text_of_type(old(self), qtype::STRING) && e == invalid_cast_error(
                    old(self).qtype,
                    qtype::STRING,
                ) && *final(self) == *old(self),
            },
    {
        if self.qtype == qtype::STRING {
            match &mut self.value {
                KValue::Symbol(string) => Ok(string),
                _ => Err(Error::invalid_cast(self.qtype, qtype::STRING)),
            }
        } else {
            Err(Error::invalid_cast(self.qtype, qtype::STRING))
        }
    }

    /// Get the vector of a q list (or of a dictionary, its keys and values), with elements
    /// of type `T`.
    pub fn as_vec<T: ListItem>(&self) -> (r: Result<&Vec<T>, Error>)
        ensures
            match r {
                Ok(v) => is_vector_type(self.qtype) && T::held(self) == Some(v@),
                Err(e) => !(is_vector_type(self.qtype) && T::held(self) is Some) && e
                    == cast_list_error(self),
            },
    {
        if self.qtype == qtype::COMPOUND_LIST || self.qtype == qtype::BOOL_LIST || self.qtype
            == qtype::GUID_LIST || (qtype::BYTE_LIST <= self.qtype && self.qtype <= qtype::FLOAT_LIST)
            || (qtype::SYMBOL_LIST <= self.qtype && self.qtype <= qtype::TIME_LIST) || self.qtype
            == qtype::DICTIONARY || self.qtype == qtype::SORTED_DICTIONARY {
            match T::held_ref(self) {
                Some(vector) => Ok(vector),
                None => Err(Error::invalid_cast_list(self.qtype)),
            }
        } else {
            Err(Error::invalid_cast_list(self.qtype))
        }
    }

    /// Get the vector of a q list (or of a dictionary, its keys and values), with elements
    /// of type `T`, to be modified in place.
    pub fn as_mut_vec<T: ListItem>(&mut self) -> (r: Result<&mut Vec<T>, Error>)
        ensures
            match r {
                Ok(v) => is_vector_type(old(self).qtype) && T::held(old(self)) == Some(v@)
                    && *final(self) == T::with_held(*old(self), *final(v)),
                Err(e) => !(is_vector_type(old(self).qtype) && T::held(old(self)) is Some) && e
                    == cast_list_error(old(self)) && *final(self) == *old(self),
            },
    {
        if self.qtype == qtype::COMPOUND_LIST || self.qtype == qtype::BOOL_LIST || self.qtype
            == qtype::GUID_LIST || (qtype::BYTE_LIST <= self.qtype && self.qtype <= qtype::FLOAT_LIST)
            || (qtype::SYMBOL_LIST <= self.qtype && self.qtype <= qtype::TIME_LIST) || self.qtype
            == qtype::DICTIONARY || self.qtype == qtype::SORTED_DICTIONARY {
            let qtype = self.qtype;
            match T::held_mut(self) {
                Some(vector) => Ok(vector),
                None => Err(Error::invalid_cast_list(qtype)),
            }
        } else {
            Err(Error::invalid_cast_list(self.qtype))
        }
    }

    /// Get the type indicator of the object.
    pub fn get_type(&self) -> (r: i8)
        ensures
            r == self.qtype,
    {
        self.qtype
    }

    /// Get the attribute of the object.
    pub fn get_attribute(&self) -> (r: i8)
        ensures
            r == self.attribute,
    {
        self.attribute
    }

    /// Set an attribute to the object. q does not check that the elements obey it.
    pub fn set_attribute(&mut self, attribute: i8)
        ensures
            *final(self) == (K { qtype: old(self).qtype, attribute, value: old(self).value }),
    {
        self.attribute = attribute;
    }
}

} // verus!
