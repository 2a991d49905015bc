//! Lengths of q objects, and adding elements to q lists and taking them out.

use super::calendar::{Date, DateTime, Duration, trunc_div};
use super::error::{Error, insert_wrong_element_error, invalid_operation_error};
use super::object::{
    texts, models, lemma_compound_model, absent_object, bool_byte, char_byte, is_vector_type, timespan_convertible, K, KList, KValue,
    QObject, QValue, atom,
};
use super::qtime::{
    date_of_q, date_to_q_date, date_to_q_month, datetime_of_q_timestamp, datetime_to_q_timestamp,
    month_of_q, q_date_convertible, q_date_of, q_date_to_date, q_minute_to_duration,
    q_month_convertible, q_month_of, q_month_to_date, q_second_to_duration, q_time_to_duration,
    q_timespan_to_duration, q_timestamp_of, q_timestamp_to_datetime, timestamp_convertible,
};
use crate::{qattribute, qtype};
use vstd::prelude::*;
use vstd::utf8::encode_utf8;

verus! {

//%% Text %%//vvvvvvvvvvvvvvvvvvvvvvvvvvvvvvvvvvvvvvvvv/

/// Number of bytes of the UTF-8 encoding of `s`: the length of a q string.
pub open spec fn text_len(s: Seq<char>) -> int {
    encode_utf8(s).len() as int
}

/// Whether the byte offset `b` of the UTF-8 encoding of `s` starts a character (or is its end).
pub open spec fn on_char_boundary(s: Seq<char>, b: int) -> bool {
    exists|j: int| 0 <= j <= s.len() && #[trigger] text_len(s.take(j)) == b
}

/// The index of the character of `s` that starts at the byte offset `b`.
pub open spec fn char_index(s: Seq<char>, b: int) -> int {
    choose|j: int| 0 <= j <= s.len() && #[trigger] text_len(s.take(j)) == b
}

/// A string is empty exactly when its encoding is.
pub proof fn lemma_text_len_zero(s: Seq<char>)
    ensures
        (text_len(s) == 0) == (s.len() == 0),
{
    if s.len() > 0 {
        vstd::utf8::char_is_scalar(s[0]);
    }
}

/// The byte offsets of characters grow with the characters before them.
proof fn lemma_text_len_take_monotonic(s: Seq<char>, i: int, j: int)
    requires
        0 <= i < j <= s.len(),
    ensures
        text_len(s.take(i)) < text_len(s.take(j)),
    decreases j - i,
{
    lemma_encode_take_step(s, j - 1);
    if i < j - 1 {
        lemma_text_len_take_monotonic(s, i, j - 1);
    }
}

/// Adding one character adds at least one byte.
proof fn lemma_encode_take_step(s: Seq<char>, i: int)
    requires
        0 <= i < s.len(),
    ensures
        text_len(s.take(i)) < text_len(s.take(i + 1)),
    decreases i,
{
    if i == 0 {
        assert(s.take(1).drop_first() =~= Seq::<char>::empty());
        vstd::utf8::char_is_scalar(s[0]);
    } else {
        let t = s.drop_first();
        assert(s.take(i).drop_first() =~= t.take(i - 1));
        assert(s.take(i + 1).drop_first() =~= t.take(i));
        assert(s.take(i)[0] == s[0]);
        assert(s.take(i + 1)[0] == s[0]);
        lemma_encode_take_step(t, i - 1);
    }
}

/// The character index of a byte offset is unique.
pub proof fn lemma_char_index(s: Seq<char>, b: int)
    requires
        on_char_boundary(s, b),
    ensures
        0 <= char_index(s, b) <= s.len(),
        text_len(s.take(char_index(s, b))) == b,
        forall|j: int| 0 <= j <= s.len() && #[trigger] text_len(s.take(j)) == b ==> j == char_index(s, b),
{
    let c = char_index(s, b);
    assert forall|j: int| 0 <= j <= s.len() && #[trigger] text_len(s.take(j)) == b implies j == c by {
        if j < c {
            lemma_text_len_take_monotonic(s, j, c);
        } else if c < j {
            lemma_text_len_take_monotonic(s, c, j);
        }
    }
}

/// `String::insert`: inserts `ch` at the byte offset `idx`, which must start a character or be
/// the end of the string.
#[verifier::external_body]
fn string_insert(s: &mut String, idx: usize, ch: char)
    requires
        on_char_boundary(old(s)@, idx as int),
    ensures
        final(s)@ == old(s)@.insert(char_index(old(s)@, idx as int), ch),
{
    s.insert(idx, ch)
}

/// `String::pop`: removes and returns the last character, `None` on an empty string.
#[verifier::external_body]
fn string_pop(s: &mut String) -> (r: Option<char>)
    ensures
        old(s)@.len() == 0 ==> r is None && final(s)@ == old(s)@,
        old(s)@.len() > 0 ==> r == Some(old(s)@.last()) && final(s)@ == old(s)@.drop_last(),
{
    s.pop()
}

/// `String::remove`: removes and returns the character that starts at the byte offset `idx`.
#[verifier::external_body]
fn string_remove(s: &mut String, idx: usize) -> (r: char)
    requires
        on_char_boundary(old(s)@, idx as int),
        idx < text_len(old(s)@),
    ensures
        r == old(s)@[char_index(old(s)@, idx as int)],
        final(s)@ == old(s)@.remove(char_index(old(s)@, idx as int)),
{
    s.remove(idx)
}

//%% Length %%//vvvvvvvvvvvvvvvvvvvvvvvvvvvvvvvvvvvvvvvv/

/// Number of elements of a list value (bytes of a string); `None` for a value that is no list.
pub open spec fn list_length(v: QValue) -> Option<int> {
    match v {
        QValue::Text(s) => Some(text_len(s)),
        QValue::Bytes(s) => Some(s.len() as int),
        QValue::Guids(s) => Some(s.len() as int),
        QValue::Shorts(s) => Some(s.len() as int),
        QValue::Ints(s) => Some(s.len() as int),
        QValue::Longs(s) => Some(s.len() as int),
        QValue::Reals(s) => Some(s.len() as int),
        QValue::Floats(s) => Some(s.len() as int),
        QValue::Symbols(s) => Some(s.len() as int),
        QValue::Objects(s) => Some(s.len() as int),
        _ => None,
    }
}

/// Number of rows of a table whose dictionary is `d`: the length of its first column.
pub open spec fn table_rows(d: QObject) -> Option<int> {
    match d.value {
        QValue::Objects(kv) => if is_vector_type(d.qtype) && kv.len() >= 2 {
            match kv[1].value {
                QValue::Objects(columns) => if is_vector_type(kv[1].qtype) && columns.len() >= 1 {
                    list_length(columns[0].value)
                } else {
                    None
                },
                _ => None,
            }
        } else {
            None
        },
        _ => None,
    }
}

/// Length of a key table of a keyed table.
pub open spec fn key_table_length(keys: QObject) -> Option<int> {
    let t = keys.qtype;
    if qtype::COMPOUND_LIST <= t <= qtype::TIME_LIST || t == qtype::DICTIONARY || t
        == qtype::SORTED_DICTIONARY {
        None
    } else if t == qtype::TABLE {
        match keys.value {
            QValue::Table(d) => table_rows(*d),
            _ => None,
        }
    } else {
        Some(1)
    }
}

/// Length of a q object: elements of a list, bytes of a string, rows of a table, keys of a
/// dictionary (bytes of string keys, rows of a keyed table), 1 for an atom. `None` where the object does not have
/// the shape that its type indicator announces.
pub open spec fn q_len(k: QObject) -> Option<int> {
    let t = k.qtype;
    if qtype::COMPOUND_LIST <= t <= qtype::TIME_LIST {
        list_length(k.value)
    } else if t == qtype::TABLE {
        match k.value {
            QValue::Table(d) => table_rows(*d),
            _ => None,
        }
    } else if t == qtype::DICTIONARY || t == qtype::SORTED_DICTIONARY {
        match k.value {
            QValue::Objects(kv) => if kv.len() >= 1 {
                match kv[0].value {
                    QValue::Table(_) => key_table_length(kv[0]),
                    QValue::Text(s) => if kv[0].qtype == qtype::STRING {
                        Some(text_len(s))
                    } else {
                        None
                    },
                    v => list_length(v),
                }
            } else {
                None
            },
            _ => None,
        }
    } else {
        Some(1)
    }
}

/// Length of the list value that `k` holds.
fn value_length(k: &K) -> (r: Option<usize>)
    ensures
        match r {
            Some(n) => list_length(k@.value) == Some(n as int),
            None => list_length(k@.value) is None,
        },
{
    match &k.value {
        KValue::Symbol(s) => Some(s.as_str().as_bytes().len()),
        KValue::List(KList::Byte(v)) => Some(v.len()),
        KValue::List(KList::Guid(v)) => Some(v.len()),
        KValue::List(KList::Short(v)) => Some(v.len()),
        KValue::List(KList::Int(v)) => Some(v.len()),
        KValue::List(KList::Long(v)) => Some(v.len()),
        KValue::List(KList::Real(v)) => Some(v.len()),
        KValue::List(KList::Float(v)) => Some(v.len()),
        KValue::List(KList::Symbol(v)) => Some(v.len()),
        KValue::List(KList::Compound(v)) => Some(v.len()),
        _ => None,
    }
}

/// Rows of the table whose dictionary is `d`.
fn dictionary_rows(d: &K) -> (r: Option<usize>)
    ensures
        match r {
            Some(n) => table_rows(d@) == Some(n as int),
            None => table_rows(d@) is None,
        },
{
    proof {
        if d@.value is Objects {
            lemma_compound_model(d);
        }
    }
    match &d.value {
        KValue::List(KList::Compound(kv)) => {
            if is_vector_type_exec(d.qtype) && kv.len() >= 2 {
                let values = &kv[1];
                proof {
                    if values@.value is Objects {
                        lemma_compound_model(values);
                    }
                }
                match &values.value {
                    KValue::List(KList::Compound(columns)) => {
                        if is_vector_type_exec(values.qtype) && columns.len() >= 1 {
                            value_length(&columns[0])
                        } else {
                            None
                        }
                    },
                    _ => None,
                }
            } else {
                None
            }
        },
        _ => None,
    }
}

/// Whether `t` is a type that `as_vec` accepts.
pub(crate) fn is_vector_type_exec(t: i8) -> (r: bool)
    ensures
        r == is_vector_type(t),
{
    t == qtype::COMPOUND_LIST || t == qtype::BOOL_LIST || t == qtype::GUID_LIST || (qtype::BYTE_LIST
        <= t && t <= qtype::FLOAT_LIST) || (qtype::SYMBOL_LIST <= t && t <= qtype::TIME_LIST) || t
        == qtype::DICTIONARY || t == qtype::SORTED_DICTIONARY
}

/// Length of `k`, where it has one.
pub(crate) fn length_of(k: &K) -> (r: Option<usize>)
    ensures
        match r {
            Some(n) => q_len(k@) == Some(n as int),
            None => q_len(k@) is None,
        },
{
    let t = k.qtype;
    if qtype::COMPOUND_LIST <= t && t <= qtype::TIME_LIST {
        value_length(k)
    } else if t == qtype::TABLE {
        match &k.value {
            KValue::Table(d) => dictionary_rows(d),
            _ => None,
        }
    } else if t == qtype::DICTIONARY || t == qtype::SORTED_DICTIONARY {
        proof {
            if k@.value is Objects {
                lemma_compound_model(k);
            }
        }
        match &k.value {
            KValue::List(KList::Compound(kv)) => {
                if kv.len() >= 1 {
                    let keys = &kv[0];
                    match &keys.value {
                        KValue::Table(d) => {
                            let kt = keys.qtype;
                            if (qtype::COMPOUND_LIST <= kt && kt <= qtype::TIME_LIST) || kt
                                == qtype::DICTIONARY || kt == qtype::SORTED_DICTIONARY {
                                None
                            } else if kt == qtype::TABLE {
                                dictionary_rows(d)
                            } else {
                                Some(1)
                            }
                        },
                        KValue::Symbol(_) => if keys.qtype == qtype::STRING {
                            value_length(keys)
                        } else {
                            None
                        },
                        _ => value_length(keys),
                    }
                } else {
                    None
                }
            },
            _ => None,
        }
    } else {
        Some(1)
    }
}

impl K {
    /// Length of the object: elements of a list, bytes of a string, rows of a table, keys of a
    /// dictionary (rows of a keyed table), 1 for an atom and the general null.
    pub fn len(&self) -> (r: usize)
        requires
            q_len(self@) is Some,
        ensures
            q_len(self@) == Some(r as int),
    {
        match length_of(self) {
            Some(n) => n,
            None => 0,
        }
    }
}

//%% Elements %%//vvvvvvvvvvvvvvvvvvvvvvvvvvvvvvvvvvvvvv/

/// The bit pattern of an `f64` counting days since 2000.01.01: an element of a q datetime list.
#[derive(Clone, Copy, Debug)]
pub struct DatetimeDays(pub u64);

/// A value that can be added to a q list.
pub enum Element {
    Bool(bool),
    Guid([u8; 16]),
    Byte(u8),
    Short(i16),
    Int(i32),
    Long(i64),
    Real(u32),
    Float(u64),
    Char(char),
    Symbol(String),
    Timestamp(DateTime),
    Date(Date),
    Datetime(u64),
    Duration(Duration),
    Object(K),
}

/// The mathematical value of an `Element`.
pub enum ElementView {
    Bool(bool),
    Guid([u8; 16]),
    Byte(u8),
    Short(i16),
    Int(i32),
    Long(i64),
    Real(u32),
    Float(u64),
    Char(char),
    Symbol(Seq<char>),
    Timestamp(int),
    Date(int),
    Datetime(u64),
    Duration(int),
    Object(QObject),
}

impl View for Element {
    type V = ElementView;

    open spec fn view(&self) -> ElementView {
        match self {
            Element::Bool(x) => ElementView::Bool(*x),
            Element::Guid(x) => ElementView::Guid(*x),
            Element::Byte(x) => ElementView::Byte(*x),
            Element::Short(x) => ElementView::Short(*x),
            Element::Int(x) => ElementView::Int(*x),
            Element::Long(x) => ElementView::Long(*x),
            Element::Real(x) => ElementView::Real(*x),
            Element::Float(x) => ElementView::Float(*x),
            Element::Char(x) => ElementView::Char(*x),
            Element::Symbol(x) => ElementView::Symbol(x@),
            Element::Timestamp(x) => ElementView::Timestamp(x@),
            Element::Date(x) => ElementView::Date(x@),
            Element::Datetime(x) => ElementView::Datetime(*x),
            Element::Duration(x) => ElementView::Duration(x@),
            Element::Object(x) => ElementView::Object(x@),
        }
    }
}

/// Types whose values can be added to a q list.
pub trait ListElement {
    /// The element that this value stands for.
    spec fn element_view(&self) -> ElementView;

    /// The element that this value stands for, as an owned value.
    fn to_element(&self) -> (r: Element)
        ensures
            r@ == self.element_view(),
    ;
}

impl ListElement for bool {
    open spec fn element_view(&self) -> ElementView {
        ElementView::Bool(*self)
    }

    fn to_element(&self) -> (r: Element) {
        Element::Bool(*self)
    }
}

impl ListElement for [u8; 16] {
    open spec fn element_view(&self) -> ElementView {
        ElementView::Guid(*self)
    }

    fn to_element(&self) -> (r: Element) {
        Element::Guid(*self)
    }
}

impl ListElement for u8 {
    open spec fn element_view(&self) -> ElementView {
        ElementView::Byte(*self)
    }

    fn to_element(&self) -> (r: Element) {
        Element::Byte(*self)
    }
}

impl ListElement for i16 {
    open spec fn element_view(&self) -> ElementView {
        ElementView::Short(*self)
    }

    fn to_element(&self) -> (r: Element) {
        Element::Short(*self)
    }
}

impl ListElement for i32 {
    open spec fn element_view(&self) -> ElementView {
        ElementView::Int(*self)
    }

    fn to_element(&self) -> (r: Element) {
        Element::Int(*self)
    }
}

impl ListElement for i64 {
    open spec fn element_view(&self) -> ElementView {
        ElementView::Long(*self)
    }

    fn to_element(&self) -> (r: Element) {
        Element::Long(*self)
    }
}

impl ListElement for u32 {
    open spec fn element_view(&self) -> ElementView {
        ElementView::Real(*self)
    }

    fn to_element(&self) -> (r: Element) {
        Element::Real(*self)
    }
}

impl ListElement for u64 {
    open spec fn element_view(&self) -> ElementView {
        ElementView::Float(*self)
    }

    fn to_element(&self) -> (r: Element) {
        Element::Float(*self)
    }
}

impl ListElement for char {
    open spec fn element_view(&self) -> ElementView {
        ElementView::Char(*self)
    }

    fn to_element(&self) -> (r: Element) {
        Element::Char(*self)
    }
}

impl ListElement for String {
    open spec fn element_view(&self) -> ElementView {
        ElementView::Symbol(self@)
    }

    fn to_element(&self) -> (r: Element) {
        Element::Symbol(self.clone())
    }
}

impl ListElement for DateTime {
    open spec fn element_view(&self) -> ElementView {
        ElementView::Timestamp(self@)
    }

    fn to_element(&self) -> (r: Element) {
        Element::Timestamp(*self)
    }
}

impl ListElement for Date {
    open spec fn element_view(&self) -> ElementView {
        ElementView::Date(self@)
    }

    fn to_element(&self) -> (r: Element) {
        Element::Date(*self)
    }
}

impl ListElement for DatetimeDays {
    open spec fn element_view(&self) -> ElementView {
        ElementView::Datetime(self.0)
    }

    fn to_element(&self) -> (r: Element) {
        Element::Datetime(self.0)
    }
}

impl ListElement for Duration {
    open spec fn element_view(&self) -> ElementView {
        ElementView::Duration(self@)
    }

    fn to_element(&self) -> (r: Element) {
        Element::Duration(*self)
    }
}

impl ListElement for K {
    open spec fn element_view(&self) -> ElementView {
        ElementView::Object(self@)
    }

    fn to_element(&self) -> (r: Element) {
        Element::Object(self.clone())
    }
}

//%% Adding elements %%//vvvvvvvvvvvvvvvvvvvvvvvvvvvvvvv/

/// Whether `e` can be stored in a list of type `t` without a failure: a timestamp
/// must fit q's range and a timespan an `i64` of nanoseconds.
pub open spec fn element_storable(t: i8, e: ElementView) -> bool {
    match e {
        ElementView::Timestamp(n) => t == qtype::TIMESTAMP_LIST ==> timestamp_convertible(n),
        ElementView::Duration(d) => t == qtype::TIMESPAN_LIST ==> timespan_convertible(d),
        _ => true,
    }
}

/// The value of the list `k` with `e` stored at the position `pos` (an element index; a
/// character index for a string), if `k` is a list whose type takes such an element.
pub open spec fn inserted(k: QObject, pos: int, e: ElementView) -> Option<QValue> {
    let t = k.qtype;
    match (k.value, e) {
        (QValue::Bytes(s), ElementView::Bool(b)) => if t == qtype::BOOL_LIST {
            Some(QValue::Bytes(s.insert(pos, bool_byte(b))))
        } else {
            None
        },
        (QValue::Bytes(s), ElementView::Byte(x)) => if t == qtype::BYTE_LIST {
            Some(QValue::Bytes(s.insert(pos, x)))
        } else {
            None
        },
        (QValue::Guids(s), ElementView::Guid(x)) => if t == qtype::GUID_LIST {
            Some(QValue::Guids(s.insert(pos, x)))
        } else {
            None
        },
        (QValue::Shorts(s), ElementView::Short(x)) => if t == qtype::SHORT_LIST {
            Some(QValue::Shorts(s.insert(pos, x)))
        } else {
            None
        },
        (QValue::Ints(s), ElementView::Int(x)) => if t == qtype::INT_LIST {
            Some(QValue::Ints(s.insert(pos, x)))
        } else {
            None
        },
        (QValue::Longs(s), ElementView::Long(x)) => if t == qtype::LONG_LIST {
            Some(QValue::Longs(s.insert(pos, x)))
        } else {
            None
        },
        (QValue::Reals(s), ElementView::Real(x)) => if t == qtype::REAL_LIST {
            Some(QValue::Reals(s.insert(pos, x)))
        } else {
            None
        },
        (QValue::Floats(s), ElementView::Float(x)) => if t == qtype::FLOAT_LIST {
            Some(QValue::Floats(s.insert(pos, x)))
        } else {
            None
        },
        (QValue::Floats(s), ElementView::Datetime(x)) => if t == qtype::DATETIME_LIST {
            Some(QValue::Floats(s.insert(pos, x)))
        } else {
            None
        },
        (QValue::Symbols(s), ElementView::Symbol(x)) => if t == qtype::SYMBOL_LIST {
            Some(QValue::Symbols(s.insert(pos, x)))
        } else {
            None
        },
        (QValue::Longs(s), ElementView::Timestamp(n)) => if t == qtype::TIMESTAMP_LIST {
            Some(QValue::Longs(s.insert(pos, q_timestamp_of(n))))
        } else {
            None
        },
        (QValue::Ints(s), ElementView::Date(d)) => if t == qtype::MONTH_LIST {
            Some(QValue::Ints(s.insert(pos, q_month_of(d))))
        } else if t == qtype::DATE_LIST {
            Some(QValue::Ints(s.insert(pos, q_date_of(d))))
        } else {
            None
        },
        (QValue::Ints(s), ElementView::Duration(d)) => if t == qtype::MINUTE_LIST {
            Some(QValue::Ints(s.insert(pos, trunc_div(d, 60_000_000_000) as i32)))
        } else if t == qtype::SECOND_LIST {
            Some(QValue::Ints(s.insert(pos, trunc_div(d, 1_000_000_000) as i32)))
        } else if t == qtype::TIME_LIST {
            Some(QValue::Ints(s.insert(pos, trunc_div(d, 1_000_000) as i32)))
        } else {
            None
        },
        (QValue::Longs(s), ElementView::Duration(d)) => if t == qtype::TIMESPAN_LIST {
            Some(QValue::Longs(s.insert(pos, d as i64)))
        } else {
            None
        },
        (QValue::Text(s), ElementView::Char(c)) => if t == qtype::STRING {
            Some(QValue::Text(s.insert(pos, c)))
        } else {
            None
        },
        (QValue::Objects(s), ElementView::Object(o)) => if t == qtype::COMPOUND_LIST {
            Some(QValue::Objects(s.insert(pos, o)))
        } else {
            None
        },
        _ => None,
    }
}

/// Number of items of a list value (characters of a string).
pub open spec fn item_count(v: QValue) -> int {
    match v {
        QValue::Text(s) => s.len() as int,
        QValue::Bytes(s) => s.len() as int,
        QValue::Guids(s) => s.len() as int,
        QValue::Shorts(s) => s.len() as int,
        QValue::Ints(s) => s.len() as int,
        QValue::Longs(s) => s.len() as int,
        QValue::Reals(s) => s.len() as int,
        QValue::Floats(s) => s.len() as int,
        QValue::Symbols(s) => s.len() as int,
        QValue::Objects(s) => s.len() as int,
        _ => 0,
    }
}

/// The item position of the byte offset or element index `index` in the list value `v`.
pub open spec fn item_position(v: QValue, index: int) -> int {
    match v {
        QValue::Text(s) => char_index(s, index),
        _ => index,
    }
}

/// Whether `e` can be stored at `index` of `k` without a failure of the underlying container:
/// the index is within the list, and for a string on a character boundary.
pub open spec fn placeable(k: QObject, index: int, e: ElementView) -> bool {
    inserted(k, 0, e) is Some ==> match k.value {
        QValue::Text(s) => on_char_boundary(s, index),
        v => match list_length(v) {
            Some(n) => 0 <= index <= n,
            None => true,
        },
    }
}

/// `k` with the value `v`.
pub open spec fn with_value(k: QObject, v: QValue) -> QObject {
    QObject { qtype: k.qtype, attribute: k.attribute, value: v }
}

/// The error of `insert` (where `is_insert`) or `push` on an object of type `t` when the
/// element does not fit: the list and the Rust type of its elements.
pub open spec fn element_error(is_insert: bool, t: i8) -> Error {
    if t == qtype::BOOL_LIST {
        insert_wrong_element_error(is_insert, qtype::BOOL_LIST, "bool")
    } else if t == qtype::GUID_LIST {
        insert_wrong_element_error(is_insert, qtype::GUID_LIST, "[u8; 16]")
    } else if t == qtype::BYTE_LIST {
        insert_wrong_element_error(is_insert, qtype::BYTE_LIST, "u8")
    } else if t == qtype::SHORT_LIST {
        insert_wrong_element_error(is_insert, qtype::SHORT_LIST, "i16")
    } else if t == qtype::INT_LIST {
        insert_wrong_element_error(is_insert, qtype::INT_LIST, "i32")
    } else if t == qtype::LONG_LIST {
        insert_wrong_element_error(is_insert, qtype::LONG_LIST, "i64")
    } else if t == qtype::REAL_LIST {
        insert_wrong_element_error(is_insert, qtype::REAL_LIST, "f32")
    } else if t == qtype::FLOAT_LIST {
        insert_wrong_element_error(is_insert, qtype::FLOAT_LIST, "f64")
    } else if t == qtype::STRING {
        insert_wrong_element_error(is_insert, qtype::STRING, "char")
    } else if t == qtype::SYMBOL_LIST {
        insert_wrong_element_error(is_insert, qtype::SYMBOL_LIST, "String")
    } else if t == qtype::TIMESTAMP_LIST {
        insert_wrong_element_error(is_insert, qtype::TIMESTAMP_LIST, "DateTime<Utc>")
    } else if t == qtype::MONTH_LIST {
        insert_wrong_element_error(is_insert, qtype::MONTH_LIST, "Date<Utc>")
    } else if t == qtype::DATE_LIST {
        insert_wrong_element_error(is_insert, qtype::DATE_LIST, "Date<Utc>")
    } else if t == qtype::DATETIME_LIST {
        insert_wrong_element_error(is_insert, qtype::DATETIME_LIST, "DateTime<Utc>")
    } else if t == qtype::TIMESPAN_LIST {
        insert_wrong_element_error(is_insert, qtype::TIMESPAN_LIST, "Duration")
    } else if t == qtype::MINUTE_LIST {
        insert_wrong_element_error(is_insert, qtype::MINUTE_LIST, "Duration")
    } else if t == qtype::SECOND_LIST {
        insert_wrong_element_error(is_insert, qtype::SECOND_LIST, "Duration")
    } else if t == qtype::TIME_LIST {
        insert_wrong_element_error(is_insert, qtype::TIME_LIST, "Duration")
    } else if t == qtype::COMPOUND_LIST {
        insert_wrong_element_error(is_insert, qtype::COMPOUND_LIST, "K")
    } else {
        invalid_operation_error(if is_insert { "insert" } else { "push" }, t, None)
    }
}

/// The error of `push` on an object of type `t` when the element does not fit.
pub open spec fn push_error(t: i8) -> Error {
    element_error(false, t)
}

/// The error of `insert` on an object of type `t` when the element does not fit.
pub open spec fn insert_error(t: i8) -> Error {
    element_error(true, t)
}

fn element_error_exec(is_insert: bool, t: i8) -> (r: Error)
    ensures
        r == element_error(is_insert, t),
{
    if t == qtype::BOOL_LIST {
        Error::insert_wrong_element(is_insert, qtype::BOOL_LIST, "bool")
    } else if t == qtype::GUID_LIST {
        Error::insert_wrong_element(is_insert, qtype::GUID_LIST, "[u8; 16]")
    } else if t == qtype::BYTE_LIST {
        Error::insert_wrong_element(is_insert, qtype::BYTE_LIST, "u8")
    } else if t == qtype::SHORT_LIST {
        Error::insert_wrong_element(is_insert, qtype::SHORT_LIST, "i16")
    } else if t == qtype::INT_LIST {
        Error::insert_wrong_element(is_insert, qtype::INT_LIST, "i32")
    } else if t == qtype::LONG_LIST {
        Error::insert_wrong_element(is_insert, qtype::LONG_LIST, "i64")
    } else if t == qtype::REAL_LIST {
        Error::insert_wrong_element(is_insert, qtype::REAL_LIST, "f32")
    } else if t == qtype::FLOAT_LIST {
        Error::insert_wrong_element(is_insert, qtype::FLOAT_LIST, "f64")
    } else if t == qtype::STRING {
        Error::insert_wrong_element(is_insert, qtype::STRING, "char")
    } else if t == qtype::SYMBOL_LIST {
        Error::insert_wrong_element(is_insert, qtype::SYMBOL_LIST, "String")
    } else if t == qtype::TIMESTAMP_LIST {
        Error::insert_wrong_element(is_insert, qtype::TIMESTAMP_LIST, "DateTime<Utc>")
    } else if t == qtype::MONTH_LIST {
        Error::insert_wrong_element(is_insert, qtype::MONTH_LIST, "Date<Utc>")
    } else if t == qtype::DATE_LIST {
        Error::insert_wrong_element(is_insert, qtype::DATE_LIST, "Date<Utc>")
    } else if t == qtype::DATETIME_LIST {
        Error::insert_wrong_element(is_insert, qtype::DATETIME_LIST, "DateTime<Utc>")
    } else if t == qtype::TIMESPAN_LIST {
        Error::insert_wrong_element(is_insert, qtype::TIMESPAN_LIST, "Duration")
    } else if t == qtype::MINUTE_LIST {
        Error::insert_wrong_element(is_insert, qtype::MINUTE_LIST, "Duration")
    } else if t == qtype::SECOND_LIST {
        Error::insert_wrong_element(is_insert, qtype::SECOND_LIST, "Duration")
    } else if t == qtype::TIME_LIST {
        Error::insert_wrong_element(is_insert, qtype::TIME_LIST, "Duration")
    } else if t == qtype::COMPOUND_LIST {
        Error::insert_wrong_element(is_insert, qtype::COMPOUND_LIST, "K")
    } else {
        Error::invalid_operation(if is_insert { "insert" } else { "push" }, t, None)
    }
}

fn push_error_exec(t: i8) -> (r: Error)
    ensures
        r == push_error(t),
{
    element_error_exec(false, t)
}

fn insert_error_exec(t: i8) -> (r: Error)
    ensures
        r == insert_error(t),
{
    element_error_exec(true, t)
}

/// The models of a vector with an object inserted.
proof fn lemma_models_insert(v: Seq<K>, pos: int, o: K)
    requires
        0 <= pos <= v.len(),
    ensures
        models(v.insert(pos, o)) == models(v).insert(pos, o@),
{
    assert(models(v.insert(pos, o)) =~= models(v).insert(pos, o@));
}

/// The models of a vector with an object removed.
proof fn lemma_models_remove(v: Seq<K>, pos: int)
    requires
        0 <= pos < v.len(),
    ensures
        models(v.remove(pos)) == models(v).remove(pos),
{
    assert(models(v.remove(pos)) =~= models(v).remove(pos));
}

/// The characters of strings with a string inserted.
proof fn lemma_texts_insert(v: Seq<String>, pos: int, x: String)
    requires
        0 <= pos <= v.len(),
    ensures
        texts(v.insert(pos, x)) == texts(v).insert(pos, x@),
{
    assert(texts(v.insert(pos, x)) =~= texts(v).insert(pos, x@));
}

/// The characters of strings with a string removed.
proof fn lemma_texts_remove(v: Seq<String>, pos: int)
    requires
        0 <= pos < v.len(),
    ensures
        texts(v.remove(pos)) == texts(v).remove(pos),
{
    assert(texts(v.remove(pos)) =~= texts(v).remove(pos));
}

/// The characters of strings without the last string.
proof fn lemma_texts_drop_last(v: Seq<String>)
    requires
        v.len() > 0,
    ensures
        texts(v.drop_last()) == texts(v).drop_last(),
{
    assert(texts(v.drop_last()) =~= texts(v).drop_last());
}

/// The models of a vector without its last object.
proof fn lemma_models_drop_last(v: Seq<K>)
    requires
        v.len() > 0,
    ensures
        models(v.drop_last()) == models(v).drop_last(),
{
    assert(models(v.drop_last()) =~= models(v).drop_last());
}

impl K {
    /// Store `e` at `index` (a byte offset for a string) if the type of the list takes it.
    fn place(&mut self, index: usize, e: Element) -> (ok: bool)
        requires
            element_storable(old(self).qtype, e@),
            placeable(old(self)@, index as int, e@),
        ensures
            ok == (inserted(old(self)@, item_position(old(self)@.value, index as int), e@) is Some),
            ok ==> final(self)@ == with_value(
                old(self)@,
                inserted(old(self)@, item_position(old(self)@.value, index as int), e@).unwrap(),
            ),
            !ok ==> *final(self) == *old(self),
    {
        let ghost k0 = *self;
        proof {
            if k0@.value is Objects {
                lemma_compound_model(&k0);
            }
        }
        let t = self.qtype;
        let ok = match e {
            Element::Bool(b) => {
                if t == qtype::BOOL_LIST {
                    match &mut self.value {
                        KValue::List(KList::Byte(v)) => {
                            v.insert(index, if b { 1 } else { 0 });
                            true
                        },
                        _ => false,
                    }
                } else {
                    false
                }
            },
            Element::Byte(x) => {
                if t == qtype::BYTE_LIST {
                    match &mut self.value {
                        KValue::List(KList::Byte(v)) => {
                            v.insert(index, x);
                            true
                        },
                        _ => false,
                    }
                } else {
                    false
                }
            },
            Element::Guid(x) => {
                if t == qtype::GUID_LIST {
                    match &mut self.value {
                        KValue::List(KList::Guid(v)) => {
                            v.insert(index, x);
                            true
                        },
                        _ => false,
                    }
                } else {
                    false
                }
            },
            Element::Short(x) => {
                if t == qtype::SHORT_LIST {
                    match &mut self.value {
                        KValue::List(KList::Short(v)) => {
                            v.insert(index, x);
                            true
                        },
                        _ => false,
                    }
                } else {
                    false
                }
            },
            Element::Int(x) => {
                if t == qtype::INT_LIST {
                    match &mut self.value {
                        KValue::List(KList::Int(v)) => {
                            v.insert(index, x);
                            true
                        },
                        _ => false,
                    }
                } else {
                    false
                }
            },
            Element::Long(x) => {
                if t == qtype::LONG_LIST {
                    match &mut self.value {
                        KValue::List(KList::Long(v)) => {
                            v.insert(index, x);
                            true
                        },
                        _ => false,
                    }
                } else {
                    false
                }
            },
            Element::Real(x) => {
                if t == qtype::REAL_LIST {
                    match &mut self.value {
                        KValue::List(KList::Real(v)) => {
                            v.insert(index, x);
                            true
                        },
                        _ => false,
                    }
                } else {
                    false
                }
            },
            Element::Float(x) => {
                if t == qtype::FLOAT_LIST {
                    match &mut self.value {
                        KValue::List(KList::Float(v)) => {
                            v.insert(index, x);
                            true
                        },
                        _ => false,
                    }
                } else {
                    false
                }
            },
            Element::Datetime(x) => {
                if t == qtype::DATETIME_LIST {
                    match &mut self.value {
                        KValue::List(KList::Float(v)) => {
                            v.insert(index, x);
                            true
                        },
                        _ => false,
                    }
                } else {
                    false
                }
            },
            Element::Symbol(x) => {
                if t == qtype::SYMBOL_LIST {
                    match &mut self.value {
                        KValue::List(KList::Symbol(v)) => {
                            proof {
                                lemma_texts_insert(v@, index as int, x);
                            }
                            v.insert(index, x);
                            true
                        },
                        _ => false,
                    }
                } else {
                    false
                }
            },
            Element::Timestamp(x) => {
                if t == qtype::TIMESTAMP_LIST {
                    match &mut self.value {
                        KValue::List(KList::Long(v)) => {
                            v.insert(index, datetime_to_q_timestamp(x));
                            true
                        },
                        _ => false,
                    }
                } else {
                    false
                }
            },
            Element::Date(d) => {
                if t == qtype::MONTH_LIST {
                    match &mut self.value {
                        KValue::List(KList::Int(v)) => {
                            v.insert(index, date_to_q_month(d));
                            true
                        },
                        _ => false,
                    }
                } else if t == qtype::DATE_LIST {
                    match &mut self.value {
                        KValue::List(KList::Int(v)) => {
                            v.insert(index, date_to_q_date(d));
                            true
                        },
                        _ => false,
                    }
                } else {
                    false
                }
            },
            Element::Duration(d) => {
                if t == qtype::TIMESPAN_LIST {
                    match &mut self.value {
                        KValue::List(KList::Long(v)) => {
                            let nanos = match d.num_nanoseconds() {
                                Some(n) => n,
                                None => 0,
                            };
                            v.insert(index, nanos);
                            true
                        },
                        _ => false,
                    }
                } else if t == qtype::MINUTE_LIST || t == qtype::SECOND_LIST || t == qtype::TIME_LIST {
                    let item: i32 = if t == qtype::MINUTE_LIST {
                        d.num_minutes() as i32
                    } else if t == qtype::SECOND_LIST {
                        d.num_seconds() as i32
                    } else {
                        d.num_milliseconds() as i32
                    };
                    match &mut self.value {
                        KValue::List(KList::Int(v)) => {
                            v.insert(index, item);
                            true
                        },
                        _ => false,
                    }
                } else {
                    false
                }
            },
            Element::Char(c) => {
                if t == qtype::STRING {
                    match &mut self.value {
                        KValue::Symbol(s) => {
                            string_insert(s, index, c);
                            true
                        },
                        _ => false,
                    }
                } else {
                    false
                }
            },
            Element::Object(o) => {
                if t == qtype::COMPOUND_LIST {
                    match &mut self.value {
                        KValue::List(KList::Compound(v)) => {
                            proof {
                                lemma_models_insert(v@, index as int, o);
                            }
                            v.insert(index, o);
                            true
                        },
                        _ => false,
                    }
                } else {
                    false
                }
            },
        };
        proof {
            if self@.value is Objects {
                lemma_compound_model(self);
            }
        }
        ok
    }
}


/// The end of a string is a character boundary, at the index of its length.
proof fn lemma_text_end(s: Seq<char>)
    ensures
        on_char_boundary(s, text_len(s)),
        char_index(s, text_len(s)) == s.len(),
{
    assert(s.take(s.len() as int) =~= s);
    assert(text_len(s.take(s.len() as int)) == text_len(s));
    lemma_char_index(s, text_len(s));
}

/// The condition under which `insert` of `e` at `index` of `k` does not fail in the string
/// that it modifies: the index is on a character boundary.
pub open spec fn string_insertable(k: QObject, index: int, e: ElementView) -> bool {
    (k.qtype == qtype::STRING && e is Char && k.value is Text && index <= text_len(
        k.value->Text_0,
    )) ==> on_char_boundary(k.value->Text_0, index)
}

impl K {
    /// Append an element to a q list. The element must be of the type that the list holds
    /// (`bool` for a bool list, `Date` for a month or date list, `K` for a compound list, ...).
    pub fn push<T: ListElement>(&mut self, element: &T) -> (r: Result<(), Error>)
        requires
            element_storable(old(self).qtype, element.element_view()),
        ensures
            match inserted(old(self)@, item_count(old(self)@.value), element.element_view()) {
                Some(v) => r == Ok::<(), Error>(()) && final(self)@ == with_value(old(self)@, v),
                None => r == Err::<(), Error>(push_error(old(self).qtype)) && *final(self)
                    == *old(self),
            },
    {
        let e = element.to_element();
        let index: usize = match &self.value {
            KValue::Symbol(s) => s.as_str().as_bytes().len(),
            _ => match value_length(self) {
                Some(n) => n,
                None => 0,
            },
        };
        proof {
            if self@.value is Text {
                lemma_text_end(self@.value->Text_0);
            }
            if self@.value is Objects {
                lemma_compound_model(self);
            }
        }
        let t = self.qtype;
        if self.place(index, e) {
            Ok(())
        } else {
            Err(push_error_exec(t))
        }
    }

    /// Insert an element at `index` of a q list (a byte offset for a string). The element must
    /// be of the type that the list holds.
    pub fn insert<T: ListElement>(&mut self, index: usize, element: &T) -> (r: Result<(), Error>)
        requires
            q_len(old(self)@) is Some,
            index <= q_len(old(self)@).unwrap() ==> element_storable(
                old(self).qtype,
                element.element_view(),
            ),
            string_insertable(old(self)@, index as int, element.element_view()),
        ensures
            if index > q_len(old(self)@).unwrap() {
                r == Err::<(), Error>(
                    Error::IndexOutOfBounds {
                        length: q_len(old(self)@).unwrap() as usize,
                        index,
                    },
                ) && *final(self) == *old(self)
            } else {
                match inserted(
                    old(self)@,
                    item_position(old(self)@.value, index as int),
                    element.element_view(),
                ) {
                    Some(v) => r == Ok::<(), Error>(()) && final(self)@ == with_value(old(self)@, v),
                    None => r == Err::<(), Error>(insert_error(old(self).qtype)) && *final(self)
                        == *old(self),
                }
            },
    {
        let length = self.len();
        if index > length {
            return Err(Error::index_out_of_bounds(length, index));
        }
        let e = element.to_element();
        let t = self.qtype;
        if self.place(index, e) {
            Ok(())
        } else {
            Err(insert_error_exec(t))
        }
    }
}

//%% Taking elements out %%//vvvvvvvvvvvvvvvvvvvvvvvvvvv/

/// A list value without its last item.
pub open spec fn dropped_last(v: QValue) -> QValue {
    match v {
        QValue::Text(s) => QValue::Text(s.drop_last()),
        QValue::Bytes(s) => QValue::Bytes(s.drop_last()),
        QValue::Guids(s) => QValue::Guids(s.drop_last()),
        QValue::Shorts(s) => QValue::Shorts(s.drop_last()),
        QValue::Ints(s) => QValue::Ints(s.drop_last()),
        QValue::Longs(s) => QValue::Longs(s.drop_last()),
        QValue::Reals(s) => QValue::Reals(s.drop_last()),
        QValue::Floats(s) => QValue::Floats(s.drop_last()),
        QValue::Symbols(s) => QValue::Symbols(s.drop_last()),
        QValue::Objects(s) => QValue::Objects(s.drop_last()),
        _ => v,
    }
}

/// A list value without its item at the position `pos`.
pub open spec fn removed_at(v: QValue, pos: int) -> QValue {
    match v {
        QValue::Text(s) => QValue::Text(s.remove(pos)),
        QValue::Bytes(s) => QValue::Bytes(s.remove(pos)),
        QValue::Guids(s) => QValue::Guids(s.remove(pos)),
        QValue::Shorts(s) => QValue::Shorts(s.remove(pos)),
        QValue::Ints(s) => QValue::Ints(s.remove(pos)),
        QValue::Longs(s) => QValue::Longs(s.remove(pos)),
        QValue::Reals(s) => QValue::Reals(s.remove(pos)),
        QValue::Floats(s) => QValue::Floats(s.remove(pos)),
        QValue::Symbols(s) => QValue::Symbols(s.remove(pos)),
        QValue::Objects(s) => QValue::Objects(s.remove(pos)),
        _ => v,
    }
}

/// What a pop of a list of the type `list_type` by the method `name` gives: `item` from a
/// non-empty list of that type.
pub open spec fn pop_result<T>(k: QObject, name: &'static str, list_type: i8, item: T) -> Result<
    T,
    Error,
> {
    if q_len(k).unwrap() == 0 {
        Err(Error::PopFromEmptyList)
    } else if k.qtype != list_type {
        Err(invalid_operation_error(name, k.qtype, Some(list_type)))
    } else {
        Ok(item)
    }
}

/// What a removal at `index` of a list of the type `list_type` by the method `name` gives:
/// `item` from a list of that type that is long enough.
pub open spec fn remove_result<T>(
    k: QObject,
    name: &'static str,
    list_type: i8,
    index: usize,
    item: T,
) -> Result<T, Error> {
    if index >= q_len(k).unwrap() {
        Err(Error::IndexOutOfBounds { length: q_len(k).unwrap() as usize, index })
    } else if k.qtype != list_type {
        Err(invalid_operation_error(name, k.qtype, Some(list_type)))
    } else {
        Ok(item)
    }
}

/// A result whose value is seen by its view (dates, points in time, durations).
pub open spec fn viewed<T: View<V = int>>(r: Result<T, Error>) -> Result<int, Error> {
    match r {
        Ok(x) => Ok(x@),
        Err(e) => Err(e),
    }
}

/// A result whose string is seen by its characters.
pub open spec fn text_viewed(r: Result<String, Error>) -> Result<Seq<char>, Error> {
    match r {
        Ok(x) => Ok(x@),
        Err(e) => Err(e),
    }
}

impl K {
    /// Pop the last element of a q bool list.
    pub fn pop_bool(&mut self) -> (r: Result<bool, Error>)
        requires
            q_len(old(self)@) is Some,
            old(self).qtype == qtype::BOOL_LIST ==> old(self)@.shaped(),
        ensures
            r == pop_result(old(self)@, "pop_bool", qtype::BOOL_LIST, (old(self)@.value->Bytes_0.last()) != 0),
            r is Ok ==> final(self)@ == with_value(old(self)@, dropped_last(old(self)@.value)),
            r is Err ==> *final(self) == *old(self),
    {
        if self.len() == 0 {
            return Err(Error::pop_from_empty_list());
        }
        if self.qtype != qtype::BOOL_LIST {
            return Err(Error::invalid_operation("pop_bool", self.qtype, Some(qtype::BOOL_LIST)));
        }
        match &mut self.value {
            KValue::List(KList::Byte(v)) => {
                match v.pop() {
                    Some(x) => Ok(x != 0),
                    None => Err(Error::pop_from_empty_list()),
                }
            },
            _ => Err(Error::pop_from_empty_list()),
        }
    }

    /// Pop the last element of a q guid list.
    pub fn pop_guid(&mut self) -> (r: Result<[u8; 16], Error>)
        requires
            q_len(old(self)@) is Some,
            old(self).qtype == qtype::GUID_LIST ==> old(self)@.shaped(),
        ensures
            r == pop_result(old(self)@, "pop_guid", qtype::GUID_LIST, (old(self)@.value->Guids_0.last())),
            r is Ok ==> final(self)@ == with_value(old(self)@, dropped_last(old(self)@.value)),
            r is Err ==> *final(self) == *old(self),
    {
        if self.len() == 0 {
            return Err(Error::pop_from_empty_list());
        }
        if self.qtype != qtype::GUID_LIST {
            return Err(Error::invalid_operation("pop_guid", self.qtype, Some(qtype::GUID_LIST)));
        }
        match &mut self.value {
            KValue::List(KList::Guid(v)) => {
                match v.pop() {
                    Some(x) => Ok(x),
                    None => Err(Error::pop_from_empty_list()),
                }
            },
            _ => Err(Error::pop_from_empty_list()),
        }
    }

    /// Pop the last element of a q byte list.
    pub fn pop_byte(&mut self) -> (r: Result<u8, Error>)
        requires
            q_len(old(self)@) is Some,
            old(self).qtype == qtype::BYTE_LIST ==> old(self)@.shaped(),
        ensures
            r == pop_result(old(self)@, "pop_byte", qtype::BYTE_LIST, (old(self)@.value->Bytes_0.last())),
            r is Ok ==> final(self)@ == with_value(old(self)@, dropped_last(old(self)@.value)),
            r is Err ==> *final(self) == *old(self),
    {
        if self.len() == 0 {
            return Err(Error::pop_from_empty_list());
        }
        if self.qtype != qtype::BYTE_LIST {
            return Err(Error::invalid_operation("pop_byte", self.qtype, Some(qtype::BYTE_LIST)));
        }
        match &mut self.value {
            KValue::List(KList::Byte(v)) => {
                match v.pop() {
                    Some(x) => Ok(x),
                    None => Err(Error::pop_from_empty_list()),
                }
            },
            _ => Err(Error::pop_from_empty_list()),
        }
    }

    /// Pop the last element of a q short list.
    pub fn pop_short(&mut self) -> (r: Result<i16, Error>)
        requires
            q_len(old(self)@) is Some,
            old(self).qtype == qtype::SHORT_LIST ==> old(self)@.shaped(),
        ensures
            r == pop_result(old(self)@, "pop_short", qtype::SHORT_LIST, (old(self)@.value->Shorts_0.last())),
            r is Ok ==> final(self)@ == with_value(old(self)@, dropped_last(old(self)@.value)),
            r is Err ==> *final(self) == *old(self),
    {
        if self.len() == 0 {
            return Err(Error::pop_from_empty_list());
        }
        if self.qtype != qtype::SHORT_LIST {
            return Err(Error::invalid_operation("pop_short", self.qtype, Some(qtype::SHORT_LIST)));
        }
        match &mut self.value {
            KValue::List(KList::Short(v)) => {
                match v.pop() {
                    Some(x) => Ok(x),
                    None => Err(Error::pop_from_empty_list()),
                }
            },
            _ => Err(Error::pop_from_empty_list()),
        }
    }

    /// Pop the last element of a q int list.
    pub fn pop_int(&mut self) -> (r: Result<i32, Error>)
        requires
            q_len(old(self)@) is Some,
            old(self).qtype == qtype::INT_LIST ==> old(self)@.shaped(),
        ensures
            r == pop_result(old(self)@, "pop_int", qtype::INT_LIST, (old(self)@.value->Ints_0.last())),
            r is Ok ==> final(self)@ == with_value(old(self)@, dropped_last(old(self)@.value)),
            r is Err ==> *final(self) == *old(self),
    {
        if self.len() == 0 {
            return Err(Error::pop_from_empty_list());
        }
        if self.qtype != qtype::INT_LIST {
            return Err(Error::invalid_operation("pop_int", self.qtype, Some(qtype::INT_LIST)));
        }
        match &mut self.value {
            KValue::List(KList::Int(v)) => {
                match v.pop() {
                    Some(x) => Ok(x),
                    None => Err(Error::pop_from_empty_list()),
                }
            },
            _ => Err(Error::pop_from_empty_list()),
        }
    }

    /// Pop the last element of a q long list.
    pub fn pop_long(&mut self) -> (r: Result<i64, Error>)
        requires
            q_len(old(self)@) is Some,
            old(self).qtype == qtype::LONG_LIST ==> old(self)@.shaped(),
        ensures
            r == pop_result(old(self)@, "pop_long", qtype::LONG_LIST, (old(self)@.value->Longs_0.last())),
            r is Ok ==> final(self)@ == with_value(old(self)@, dropped_last(old(self)@.value)),
            r is Err ==> *final(self) == *old(self),
    {
        if self.len() == 0 {
            return Err(Error::pop_from_empty_list());
        }
        if self.qtype != qtype::LONG_LIST {
            return Err(Error::invalid_operation("pop_long", self.qtype, Some(qtype::LONG_LIST)));
        }
        match &mut self.value {
            KValue::List(KList::Long(v)) => {
                match v.pop() {
                    Some(x) => Ok(x),
                    None => Err(Error::pop_from_empty_list()),
                }
            },
            _ => Err(Error::pop_from_empty_list()),
        }
    }

    /// Pop the last element of a q real list.
    pub fn pop_real(&mut self) -> (r: Result<u32, Error>)
        requires
            q_len(old(self)@) is Some,
            old(self).qtype == qtype::REAL_LIST ==> old(self)@.shaped(),
        ensures
            r == pop_result(old(self)@, "pop_real", qtype::REAL_LIST, (old(self)@.value->Reals_0.last())),
            r is Ok ==> final(self)@ == with_value(old(self)@, dropped_last(old(self)@.value)),
            r is Err ==> *final(self) == *old(self),
    {
        if self.len() == 0 {
            return Err(Error::pop_from_empty_list());
        }
        if self.qtype != qtype::REAL_LIST {
            return Err(Error::invalid_operation("pop_real", self.qtype, Some(qtype::REAL_LIST)));
        }
        match &mut self.value {
            KValue::List(KList::Real(v)) => {
                match v.pop() {
                    Some(x) => Ok(x),
                    None => Err(Error::pop_from_empty_list()),
                }
            },
            _ => Err(Error::pop_from_empty_list()),
        }
    }

    /// Pop the last element of a q float list.
    pub fn pop_float(&mut self) -> (r: Result<u64, Error>)
        requires
            q_len(old(self)@) is Some,
            old(self).qtype == qtype::FLOAT_LIST ==> old(self)@.shaped(),
        ensures
            r == pop_result(old(self)@, "pop_float", qtype::FLOAT_LIST, (old(self)@.value->Floats_0.last())),
            r is Ok ==> final(self)@ == with_value(old(self)@, dropped_last(old(self)@.value)),
            r is Err ==> *final(self) == *old(self),
    {
        if self.len() == 0 {
            return Err(Error::pop_from_empty_list());
        }
        if self.qtype != qtype::FLOAT_LIST {
            return Err(Error::invalid_operation("pop_float", self.qtype, Some(qtype::FLOAT_LIST)));
        }
        match &mut self.value {
            KValue::List(KList::Float(v)) => {
                match v.pop() {
                    Some(x) => Ok(x),
                    None => Err(Error::pop_from_empty_list()),
                }
            },
            _ => Err(Error::pop_from_empty_list()),
        }
    }

    /// Pop the last element of a q symbol list.
    pub fn pop_symbol(&mut self) -> (r: Result<String, Error>)
        requires
            q_len(old(self)@) is Some,
            old(self).qtype == qtype::SYMBOL_LIST ==> old(self)@.shaped(),
        ensures
            text_viewed(r) == pop_result(old(self)@, "pop_symbol", qtype::SYMBOL_LIST, (old(self)@.value->Symbols_0.last())),
            r is Ok ==> final(self)@ == with_value(old(self)@, dropped_last(old(self)@.value)),
            r is Err ==> *final(self) == *old(self),
    {
        if self.len() == 0 {
            return Err(Error::pop_from_empty_list());
        }
        if self.qtype != qtype::SYMBOL_LIST {
            return Err(Error::invalid_operation("pop_symbol", self.qtype, Some(qtype::SYMBOL_LIST)));
        }
        match &mut self.value {
            KValue::List(KList::Symbol(v)) => {
                proof {
                        lemma_texts_drop_last(v@);
                    }
                    match v.pop() {
                    Some(x) => Ok(x),
                    None => Err(Error::pop_from_empty_list()),
                }
            },
            _ => Err(Error::pop_from_empty_list()),
        }
    }

    /// Pop the last element of a q timestamp list.
    pub fn pop_timestamp(&mut self) -> (r: Result<DateTime, Error>)
        requires
            q_len(old(self)@) is Some,
            old(self).qtype == qtype::TIMESTAMP_LIST ==> old(self)@.shaped(),
        ensures
            viewed(r) == pop_result(old(self)@, "pop_timestamp", qtype::TIMESTAMP_LIST, datetime_of_q_timestamp((old(self)@.value->Longs_0.last()))),
            r is Ok ==> final(self)@ == with_value(old(self)@, dropped_last(old(self)@.value)),
            r is Err ==> *final(self) == *old(self),
    {
        if self.len() == 0 {
            return Err(Error::pop_from_empty_list());
        }
        if self.qtype != qtype::TIMESTAMP_LIST {
            return Err(Error::invalid_operation("pop_timestamp", self.qtype, Some(qtype::TIMESTAMP_LIST)));
        }
        match &mut self.value {
            KValue::List(KList::Long(v)) => {
                match v.pop() {
                    Some(x) => Ok(q_timestamp_to_datetime(x)),
                    None => Err(Error::pop_from_empty_list()),
                }
            },
            _ => Err(Error::pop_from_empty_list()),
        }
    }

    /// Pop the last element of a q month list.
    pub fn pop_month(&mut self) -> (r: Result<Date, Error>)
        requires
            q_len(old(self)@) is Some,
            old(self).qtype == qtype::MONTH_LIST ==> old(self)@.shaped(),
            old(self).qtype == qtype::MONTH_LIST && q_len(old(self)@).unwrap() > 0 ==> q_month_convertible(
                old(self)@.value->Ints_0.last(),
            ),
        ensures
            viewed(r) == pop_result(old(self)@, "pop_month", qtype::MONTH_LIST, month_of_q((old(self)@.value->Ints_0.last()))),
            r is Ok ==> final(self)@ == with_value(old(self)@, dropped_last(old(self)@.value)),
            r is Err ==> *final(self) == *old(self),
    {
        if self.len() == 0 {
            return Err(Error::pop_from_empty_list());
        }
        if self.qtype != qtype::MONTH_LIST {
            return Err(Error::invalid_operation("pop_month", self.qtype, Some(qtype::MONTH_LIST)));
        }
        match &mut self.value {
            KValue::List(KList::Int(v)) => {
                match v.pop() {
                    Some(x) => Ok(q_month_to_date(x)),
                    None => Err(Error::pop_from_empty_list()),
                }
            },
            _ => Err(Error::pop_from_empty_list()),
        }
    }

    /// Pop the last element of a q date list.
    pub fn pop_date(&mut self) -> (r: Result<Date, Error>)
        requires
            q_len(old(self)@) is Some,
            old(self).qtype == qtype::DATE_LIST ==> old(self)@.shaped(),
            old(self).qtype == qtype::DATE_LIST && q_len(old(self)@).unwrap() > 0 ==> q_date_convertible(
                old(self)@.value->Ints_0.last(),
            ),
        ensures
            viewed(r) == pop_result(old(self)@, "pop_date", qtype::DATE_LIST, date_of_q((old(self)@.value->Ints_0.last()))),
            r is Ok ==> final(self)@ == with_value(old(self)@, dropped_last(old(self)@.value)),
            r is Err ==> *final(self) == *old(self),
    {
        if self.len() == 0 {
            return Err(Error::pop_from_empty_list());
        }
        if self.qtype != qtype::DATE_LIST {
            return Err(Error::invalid_operation("pop_date", self.qtype, Some(qtype::DATE_LIST)));
        }
        match &mut self.value {
            KValue::List(KList::Int(v)) => {
                match v.pop() {
                    Some(x) => Ok(q_date_to_date(x)),
                    None => Err(Error::pop_from_empty_list()),
                }
            },
            _ => Err(Error::pop_from_empty_list()),
        }
    }

    /// Pop the last element of a q datetime list.
    pub fn pop_datetime(&mut self) -> (r: Result<u64, Error>)
        requires
            q_len(old(self)@) is Some,
            old(self).qtype == qtype::DATETIME_LIST ==> old(self)@.shaped(),
        ensures
            r == pop_result(old(self)@, "pop_datetime", qtype::DATETIME_LIST, (old(self)@.value->Floats_0.last())),
            r is Ok ==> final(self)@ == with_value(old(self)@, dropped_last(old(self)@.value)),
            r is Err ==> *final(self) == *old(self),
    {
        if self.len() == 0 {
            return Err(Error::pop_from_empty_list());
        }
        if self.qtype != qtype::DATETIME_LIST {
            return Err(Error::invalid_operation("pop_datetime", self.qtype, Some(qtype::DATETIME_LIST)));
        }
        match &mut self.value {
            KValue::List(KList::Float(v)) => {
                match v.pop() {
                    Some(x) => Ok(x),
                    None => Err(Error::pop_from_empty_list()),
                }
            },
            _ => Err(Error::pop_from_empty_list()),
        }
    }

    /// Pop the last element of a q timespan list.
    pub fn pop_timespan(&mut self) -> (r: Result<Duration, Error>)
        requires
            q_len(old(self)@) is Some,
            old(self).qtype == qtype::TIMESPAN_LIST ==> old(self)@.shaped(),
        ensures
            viewed(r) == pop_result(old(self)@, "pop_timespan", qtype::TIMESPAN_LIST, (old(self)@.value->Longs_0.last()) as int),
            r is Ok ==> final(self)@ == with_value(old(self)@, dropped_last(old(self)@.value)),
            r is Err ==> *final(self) == *old(self),
    {
        if self.len() == 0 {
            return Err(Error::pop_from_empty_list());
        }
        if self.qtype != qtype::TIMESPAN_LIST {
            return Err(Error::invalid_operation("pop_timespan", self.qtype, Some(qtype::TIMESPAN_LIST)));
        }
        match &mut self.value {
            KValue::List(KList::Long(v)) => {
                match v.pop() {
                    Some(x) => Ok(q_timespan_to_duration(x)),
                    None => Err(Error::pop_from_empty_list()),
                }
            },
            _ => Err(Error::pop_from_empty_list()),
        }
    }

    /// Pop the last element of a q minute list.
    pub fn pop_minute(&mut self) -> (r: Result<Duration, Error>)
        requires
            q_len(old(self)@) is Some,
            old(self).qtype == qtype::MINUTE_LIST ==> old(self)@.shaped(),
        ensures
            viewed(r) == pop_result(old(self)@, "pop_minute", qtype::MINUTE_LIST, (old(self)@.value->Ints_0.last()) * 60_000_000_000),
            r is Ok ==> final(self)@ == with_value(old(self)@, dropped_last(old(self)@.value)),
            r is Err ==> *final(self) == *old(self),
    {
        if self.len() == 0 {
            return Err(Error::pop_from_empty_list());
        }
        if self.qtype != qtype::MINUTE_LIST {
            return Err(Error::invalid_operation("pop_minute", self.qtype, Some(qtype::MINUTE_LIST)));
        }
        match &mut self.value {
            KValue::List(KList::Int(v)) => {
                match v.pop() {
                    Some(x) => Ok(q_minute_to_duration(x)),
                    None => Err(Error::pop_from_empty_list()),
                }
            },
            _ => Err(Error::pop_from_empty_list()),
        }
    }

    /// Pop the last element of a q second list.
    pub fn pop_second(&mut self) -> (r: Result<Duration, Error>)
        requires
            q_len(old(self)@) is Some,
            old(self).qtype == qtype::SECOND_LIST ==> old(self)@.shaped(),
        ensures
            viewed(r) == pop_result(old(self)@, "pop_second", qtype::SECOND_LIST, (old(self)@.value->Ints_0.last()) * 1_000_000_000),
            r is Ok ==> final(self)@ == with_value(old(self)@, dropped_last(old(self)@.value)),
            r is Err ==> *final(self) == *old(self),
    {
        if self.len() == 0 {
            return Err(Error::pop_from_empty_list());
        }
        if self.qtype != qtype::SECOND_LIST {
            return Err(Error::invalid_operation("pop_second", self.qtype, Some(qtype::SECOND_LIST)));
        }
        match &mut self.value {
            KValue::List(KList::Int(v)) => {
                match v.pop() {
                    Some(x) => Ok(q_second_to_duration(x)),
                    None => Err(Error::pop_from_empty_list()),
                }
            },
            _ => Err(Error::pop_from_empty_list()),
        }
    }

    /// Pop the last element of a q time list.
    pub fn pop_time(&mut self) -> (r: Result<Duration, Error>)
        requires
            q_len(old(self)@) is Some,
            old(self).qtype == qtype::TIME_LIST ==> old(self)@.shaped(),
        ensures
            viewed(r) == pop_result(old(self)@, "pop_time", qtype::TIME_LIST, (old(self)@.value->Ints_0.last()) * 1_000_000),
            r is Ok ==> final(self)@ == with_value(old(self)@, dropped_last(old(self)@.value)),
            r is Err ==> *final(self) == *old(self),
    {
        if self.len() == 0 {
            return Err(Error::pop_from_empty_list());
        }
        if self.qtype != qtype::TIME_LIST {
            return Err(Error::invalid_operation("pop_time", self.qtype, Some(qtype::TIME_LIST)));
        }
        match &mut self.value {
            KValue::List(KList::Int(v)) => {
                match v.pop() {
                    Some(x) => Ok(q_time_to_duration(x)),
                    None => Err(Error::pop_from_empty_list()),
                }
            },
            _ => Err(Error::pop_from_empty_list()),
        }
    }

    /// Pop the last character of a q string.
    pub fn pop_char(&mut self) -> (r: Result<char, Error>)
        requires
            q_len(old(self)@) is Some,
            old(self).qtype == qtype::STRING ==> old(self)@.shaped(),
        ensures
            r == pop_result(old(self)@, "pop_char", qtype::STRING, old(self)@.value->Text_0.last()),
            r is Ok ==> final(self)@ == with_value(old(self)@, dropped_last(old(self)@.value)),
            r is Err ==> *final(self) == *old(self),
    {
        if self.len() == 0 {
            return Err(Error::pop_from_empty_list());
        }
        if self.qtype != qtype::STRING {
            return Err(Error::invalid_operation("pop_char", self.qtype, Some(qtype::STRING)));
        }
        match &mut self.value {
            KValue::Symbol(s) => {
                proof {
                    lemma_text_len_zero(s@);
                }
                match string_pop(s) {
                    Some(c) => Ok(c),
                    None => Err(Error::pop_from_empty_list()),
                }
            },
            _ => Err(Error::pop_from_empty_list()),
        }
    }
}

/// Whether `t` is the type of a list whose elements can be taken out.
pub open spec fn is_list_type(t: i8) -> bool {
    qtype::COMPOUND_LIST <= t <= qtype::TIME_LIST && t != 3
}

/// The atom value of the item at `pos` of the list `k`: a bool is normalised to 0 or 1 and a
/// character of a string gives its low byte.
pub open spec fn item_atom(k: QObject, pos: int) -> QValue {
    match k.value {
        QValue::Bytes(s) => QValue::Byte(
            if k.qtype == qtype::BOOL_LIST {
                bool_byte(s[pos] != 0)
            } else {
                s[pos]
            },
        ),
        QValue::Guids(s) => QValue::Guid(s[pos]),
        QValue::Shorts(s) => QValue::Short(s[pos]),
        QValue::Ints(s) => QValue::Int(s[pos]),
        QValue::Longs(s) => QValue::Long(s[pos]),
        QValue::Reals(s) => QValue::Real(s[pos]),
        QValue::Floats(s) => QValue::Float(s[pos]),
        QValue::Text(s) => QValue::Byte(char_byte(s[pos])),
        QValue::Symbols(s) => QValue::Text(s[pos]),
        _ => QValue::Null,
    }
}

/// The object that `pop` gives of the list `k`: its last element, as an atom of the list's
/// element type (the object itself for a compound list).
pub open spec fn popped_object(k: QObject) -> QObject {
    match k.value {
        QValue::Objects(s) => s.last(),
        _ => atom((-k.qtype) as i8, item_atom(k, item_count(k.value) - 1)),
    }
}

/// What `pop` gives of `k`.
pub open spec fn pop_any_result(k: QObject) -> Result<QObject, Error> {
    if q_len(k).unwrap() == 0 {
        Err(Error::PopFromEmptyList)
    } else if is_list_type(k.qtype) {
        Ok(popped_object(k))
    } else {
        Err(invalid_operation_error("pop", k.qtype, None))
    }
}

/// The object that `remove` gives of the item at `pos` of the list `k`. A timestamp, a month
/// and a date pass through the calendar and back, as the conversions of the getters do; a
/// datetime keeps the bits it has, since its calendar conversion is floating point, which the
/// callers outside the library do.
pub open spec fn removed_object(k: QObject, pos: int) -> QObject {
    let t = k.qtype;
    match k.value {
        QValue::Objects(s) => s[pos],
        QValue::Longs(s) => if t == qtype::TIMESTAMP_LIST {
            atom(qtype::TIMESTAMP_ATOM, QValue::Long(q_timestamp_of(datetime_of_q_timestamp(s[pos]))))
        } else {
            atom((-t) as i8, QValue::Long(s[pos]))
        },
        QValue::Ints(s) => if t == qtype::MONTH_LIST {
            atom(qtype::MONTH_ATOM, QValue::Int(q_month_of(month_of_q(s[pos]))))
        } else if t == qtype::DATE_LIST {
            atom(qtype::DATE_ATOM, QValue::Int(q_date_of(date_of_q(s[pos]))))
        } else {
            atom((-t) as i8, QValue::Int(s[pos]))
        },
        _ => atom((-t) as i8, item_atom(k, pos)),
    }
}

/// What `remove` gives of `k` at `index`.
pub open spec fn remove_any_result(k: QObject, index: usize) -> Result<QObject, Error> {
    if index >= q_len(k).unwrap() {
        Err(Error::IndexOutOfBounds { length: q_len(k).unwrap() as usize, index })
    } else if is_list_type(k.qtype) {
        Ok(removed_object(k, item_position(k.value, index as int)))
    } else {
        Err(invalid_operation_error("remove", k.qtype, None))
    }
}

/// Whether the conversions that `remove` makes of the item at `index` of `k` succeed.
pub open spec fn removable(k: QObject, index: int) -> bool {
    &&& is_list_type(k.qtype) ==> k.shaped()
    &&& (index < q_len(k).unwrap() && k.value is Text && k.qtype == qtype::STRING)
        ==> on_char_boundary(k.value->Text_0, index)
    &&& (index < q_len(k).unwrap() && k.qtype == qtype::TIMESTAMP_LIST) ==> timestamp_convertible(
        datetime_of_q_timestamp(k.value->Longs_0[index]),
    )
    &&& (index < q_len(k).unwrap() && k.qtype == qtype::MONTH_LIST) ==> q_month_convertible(
        k.value->Ints_0[index],
    )
    &&& (index < q_len(k).unwrap() && k.qtype == qtype::DATE_LIST) ==> q_date_convertible(
        k.value->Ints_0[index],
    )
}

impl K {
    /// Pop the last element of a q list, as a q object.
    pub fn pop(&mut self) -> (r: Result<K, Error>)
        requires
            q_len(old(self)@) is Some,
            is_list_type(old(self).qtype) ==> old(self)@.shaped(),
        ensures
            match pop_any_result(old(self)@) {
                Ok(o) => (r matches Ok(x) && x@ == o) && final(self)@ == with_value(
                    old(self)@,
                    dropped_last(old(self)@.value),
                ),
                Err(e) => r == Err::<K, Error>(e) && *final(self) == *old(self),
            },
    {
        if self.len() == 0 {
            return Err(Error::pop_from_empty_list());
        }
        let t = self.qtype;
        if !(qtype::COMPOUND_LIST <= t && t <= qtype::TIME_LIST && t != 3) {
            return Err(Error::invalid_operation("pop", t, None));
        }
        let atom_type: i8 = -t;
        let ghost k0 = *self;
        proof {
            if k0@.value is Objects {
                lemma_compound_model(&k0);
            }
        }
        let r = match &mut self.value {
            KValue::List(KList::Byte(v)) => match v.pop() {
                Some(x) => {
                    let b: u8 = if t == qtype::BOOL_LIST {
                        if x != 0 {
                            1
                        } else {
                            0
                        }
                    } else {
                        x
                    };
                    Ok(K::new(atom_type, qattribute::NONE, KValue::Byte(b)))
                },
                None => Err(Error::pop_from_empty_list()),
            },
            KValue::List(KList::Guid(v)) => match v.pop() {
                Some(x) => Ok(K::new(atom_type, qattribute::NONE, KValue::Guid(x))),
                None => Err(Error::pop_from_empty_list()),
            },
            KValue::List(KList::Short(v)) => match v.pop() {
                Some(x) => Ok(K::new(atom_type, qattribute::NONE, KValue::Short(x))),
                None => Err(Error::pop_from_empty_list()),
            },
            KValue::List(KList::Int(v)) => match v.pop() {
                Some(x) => Ok(K::new(atom_type, qattribute::NONE, KValue::Int(x))),
                None => Err(Error::pop_from_empty_list()),
            },
            KValue::List(KList::Long(v)) => match v.pop() {
                Some(x) => Ok(K::new(atom_type, qattribute::NONE, KValue::Long(x))),
                None => Err(Error::pop_from_empty_list()),
            },
            KValue::List(KList::Real(v)) => match v.pop() {
                Some(x) => Ok(K::new(atom_type, qattribute::NONE, KValue::Real(x))),
                None => Err(Error::pop_from_empty_list()),
            },
            KValue::List(KList::Float(v)) => match v.pop() {
                Some(x) => Ok(K::new(atom_type, qattribute::NONE, KValue::Float(x))),
                None => Err(Error::pop_from_empty_list()),
            },
            KValue::List(KList::Symbol(v)) => match v.pop() {
                Some(x) => Ok(K::new(atom_type, qattribute::NONE, KValue::Symbol(x))),
                None => Err(Error::pop_from_empty_list()),
            },
            KValue::Symbol(s) => {
                proof {
                    lemma_text_len_zero(s@);
                }
                match string_pop(s) {
                    Some(c) => Ok(K::new_char(c)),
                    None => Err(Error::pop_from_empty_list()),
                }
            },
            KValue::List(KList::Compound(v)) => {
                proof {
                    lemma_models_drop_last(v@);
                }
                match v.pop() {
                    Some(x) => Ok(x),
                    None => Err(Error::pop_from_empty_list()),
                }
            },
            _ => Err(Error::pop_from_empty_list()),
        };
        proof {
            if self@.value is Objects {
                lemma_compound_model(self);
            }
            if self@.value is Symbols {
                lemma_texts_drop_last(k0.value->List_0->Symbol_0@);
            }
        }
        r
    }
}

impl K {
    /// Remove the element at `index` of a q bool list.
    pub fn remove_bool(&mut self, index: usize) -> (r: Result<bool, Error>)
        requires
            q_len(old(self)@) is Some,
            old(self).qtype == qtype::BOOL_LIST ==> old(self)@.shaped(),
        ensures
            r == remove_result(old(self)@, "remove_bool", qtype::BOOL_LIST, index, (old(self)@.value->Bytes_0[index as int]) != 0),
            r is Ok ==> final(self)@ == with_value(
                old(self)@,
                removed_at(old(self)@.value, index as int),
            ),
            r is Err ==> *final(self) == *old(self),
    {
        let length = self.len();
        if index >= length {
            return Err(Error::index_out_of_bounds(length, index));
        }
        if self.qtype != qtype::BOOL_LIST {
            return Err(Error::invalid_operation("remove_bool", self.qtype, Some(qtype::BOOL_LIST)));
        }
        match &mut self.value {
            KValue::List(KList::Byte(v)) => {
                let x = v.remove(index);
                Ok(x != 0)
            },
            _ => Err(Error::pop_from_empty_list()),
        }
    }

    /// Remove the element at `index` of a q guid list.
    pub fn remove_guid(&mut self, index: usize) -> (r: Result<[u8; 16], Error>)
        requires
            q_len(old(self)@) is Some,
            old(self).qtype == qtype::GUID_LIST ==> old(self)@.shaped(),
        ensures
            r == remove_result(old(self)@, "remove_guid", qtype::GUID_LIST, index, (old(self)@.value->Guids_0[index as int])),
            r is Ok ==> final(self)@ == with_value(
                old(self)@,
                removed_at(old(self)@.value, index as int),
            ),
            r is Err ==> *final(self) == *old(self),
    {
        let length = self.len();
        if index >= length {
            return Err(Error::index_out_of_bounds(length, index));
        }
        if self.qtype != qtype::GUID_LIST {
            return Err(Error::invalid_operation("remove_guid", self.qtype, Some(qtype::GUID_LIST)));
        }
        match &mut self.value {
            KValue::List(KList::Guid(v)) => {
                let x = v.remove(index);
                Ok(x)
            },
            _ => Err(Error::pop_from_empty_list()),
        }
    }

    /// Remove the element at `index` of a q byte list.
    pub fn remove_byte(&mut self, index: usize) -> (r: Result<u8, Error>)
        requires
            q_len(old(self)@) is Some,
            old(self).qtype == qtype::BYTE_LIST ==> old(self)@.shaped(),
        ensures
            r == remove_result(old(self)@, "remove_byte", qtype::BYTE_LIST, index, (old(self)@.value->Bytes_0[index as int])),
            r is Ok ==> final(self)@ == with_value(
                old(self)@,
                removed_at(old(self)@.value, index as int),
            ),
            r is Err ==> *final(self) == *old(self),
    {
        let length = self.len();
        if index >= length {
            return Err(Error::index_out_of_bounds(length, index));
        }
        if self.qtype != qtype::BYTE_LIST {
            return Err(Error::invalid_operation("remove_byte", self.qtype, Some(qtype::BYTE_LIST)));
        }
        match &mut self.value {
            KValue::List(KList::Byte(v)) => {
                let x = v.remove(index);
                Ok(x)
            },
            _ => Err(Error::pop_from_empty_list()),
        }
    }

    /// Remove the element at `index` of a q short list.
    pub fn remove_short(&mut self, index: usize) -> (r: Result<i16, Error>)
        requires
            q_len(old(self)@) is Some,
            old(self).qtype == qtype::SHORT_LIST ==> old(self)@.shaped(),
        ensures
            r == remove_result(old(self)@, "remove_short", qtype::SHORT_LIST, index, (old(self)@.value->Shorts_0[index as int])),
            r is Ok ==> final(self)@ == with_value(
                old(self)@,
                removed_at(old(self)@.value, index as int),
            ),
            r is Err ==> *final(self) == *old(self),
    {
        let length = self.len();
        if index >= length {
            return Err(Error::index_out_of_bounds(length, index));
        }
        if self.qtype != qtype::SHORT_LIST {
            return Err(Error::invalid_operation("remove_short", self.qtype, Some(qtype::SHORT_LIST)));
        }
        match &mut self.value {
            KValue::List(KList::Short(v)) => {
                let x = v.remove(index);
                Ok(x)
            },
            _ => Err(Error::pop_from_empty_list()),
        }
    }

    /// Remove the element at `index` of a q int list.
    pub fn remove_int(&mut self, index: usize) -> (r: Result<i32, Error>)
        requires
            q_len(old(self)@) is Some,
            old(self).qtype == qtype::INT_LIST ==> old(self)@.shaped(),
        ensures
            r == remove_result(old(self)@, "remove_int", qtype::INT_LIST, index, (old(self)@.value->Ints_0[index as int])),
            r is Ok ==> final(self)@ == with_value(
                old(self)@,
                removed_at(old(self)@.value, index as int),
            ),
            r is Err ==> *final(self) == *old(self),
    {
        let length = self.len();
        if index >= length {
            return Err(Error::index_out_of_bounds(length, index));
        }
        if self.qtype != qtype::INT_LIST {
            return Err(Error::invalid_operation("remove_int", self.qtype, Some(qtype::INT_LIST)));
        }
        match &mut self.value {
            KValue::List(KList::Int(v)) => {
                let x = v.remove(index);
                Ok(x)
            },
            _ => Err(Error::pop_from_empty_list()),
        }
    }

    /// Remove the element at `index` of a q long list.
    pub fn remove_long(&mut self, index: usize) -> (r: Result<i64, Error>)
        requires
            q_len(old(self)@) is Some,
            old(self).qtype == qtype::LONG_LIST ==> old(self)@.shaped(),
        ensures
            r == remove_result(old(self)@, "remove_long", qtype::LONG_LIST, index, (old(self)@.value->Longs_0[index as int])),
            r is Ok ==> final(self)@ == with_value(
                old(self)@,
                removed_at(old(self)@.value, index as int),
            ),
            r is Err ==> *final(self) == *old(self),
    {
        let length = self.len();
        if index >= length {
            return Err(Error::index_out_of_bounds(length, index));
        }
        if self.qtype != qtype::LONG_LIST {
            return Err(Error::invalid_operation("remove_long", self.qtype, Some(qtype::LONG_LIST)));
        }
        match &mut self.value {
            KValue::List(KList::Long(v)) => {
                let x = v.remove(index);
                Ok(x)
            },
            _ => Err(Error::pop_from_empty_list()),
        }
    }

    /// Remove the element at `index` of a q real list.
    pub fn remove_real(&mut self, index: usize) -> (r: Result<u32, Error>)
        requires
            q_len(old(self)@) is Some,
            old(self).qtype == qtype::REAL_LIST ==> old(self)@.shaped(),
        ensures
            r == remove_result(old(self)@, "remove_real", qtype::REAL_LIST, index, (old(self)@.value->Reals_0[index as int])),
            r is Ok ==> final(self)@ == with_value(
                old(self)@,
                removed_at(old(self)@.value, index as int),
            ),
            r is Err ==> *final(self) == *old(self),
    {
        let length = self.len();
        if index >= length {
            return Err(Error::index_out_of_bounds(length, index));
        }
        if self.qtype != qtype::REAL_LIST {
            return Err(Error::invalid_operation("remove_real", self.qtype, Some(qtype::REAL_LIST)));
        }
        match &mut self.value {
            KValue::List(KList::Real(v)) => {
                let x = v.remove(index);
                Ok(x)
            },
            _ => Err(Error::pop_from_empty_list()),
        }
    }

    /// Remove the element at `index` of a q float list.
    pub fn remove_float(&mut self, index: usize) -> (r: Result<u64, Error>)
        requires
            q_len(old(self)@) is Some,
            old(self).qtype == qtype::FLOAT_LIST ==> old(self)@.shaped(),
        ensures
            r == remove_result(old(self)@, "remove_float", qtype::FLOAT_LIST, index, (old(self)@.value->Floats_0[index as int])),
            r is Ok ==> final(self)@ == with_value(
                old(self)@,
                removed_at(old(self)@.value, index as int),
            ),
            r is Err ==> *final(self) == *old(self),
    {
        let length = self.len();
        if index >= length {
            return Err(Error::index_out_of_bounds(length, index));
        }
        if self.qtype != qtype::FLOAT_LIST {
            return Err(Error::invalid_operation("remove_float", self.qtype, Some(qtype::FLOAT_LIST)));
        }
        match &mut self.value {
            KValue::List(KList::Float(v)) => {
                let x = v.remove(index);
                Ok(x)
            },
            _ => Err(Error::pop_from_empty_list()),
        }
    }

    /// Remove the element at `index` of a q symbol list.
    pub fn remove_symbol(&mut self, index: usize) -> (r: Result<String, Error>)
        requires
            q_len(old(self)@) is Some,
            old(self).qtype == qtype::SYMBOL_LIST ==> old(self)@.shaped(),
        ensures
            text_viewed(r) == remove_result(old(self)@, "remove_symbol", qtype::SYMBOL_LIST, index, (old(self)@.value->Symbols_0[index as int])),
            r is Ok ==> final(self)@ == with_value(
                old(self)@,
                removed_at(old(self)@.value, index as int),
            ),
            r is Err ==> *final(self) == *old(self),
    {
        let length = self.len();
        if index >= length {
            return Err(Error::index_out_of_bounds(length, index));
        }
        if self.qtype != qtype::SYMBOL_LIST {
            return Err(Error::invalid_operation("remove_symbol", self.qtype, Some(qtype::SYMBOL_LIST)));
        }
        match &mut self.value {
            KValue::List(KList::Symbol(v)) => {
                proof {
                    lemma_texts_remove(v@, index as int);
                }
                let x = v.remove(index);
                Ok(x)
            },
            _ => Err(Error::pop_from_empty_list()),
        }
    }

    /// Remove the element at `index` of a q timestamp list.
    pub fn remove_timestamp(&mut self, index: usize) -> (r: Result<DateTime, Error>)
        requires
            q_len(old(self)@) is Some,
            old(self).qtype == qtype::TIMESTAMP_LIST ==> old(self)@.shaped(),
        ensures
            viewed(r) == remove_result(old(self)@, "remove_timestamp", qtype::TIMESTAMP_LIST, index, datetime_of_q_timestamp((old(self)@.value->Longs_0[index as int]))),
            r is Ok ==> final(self)@ == with_value(
                old(self)@,
                removed_at(old(self)@.value, index as int),
            ),
            r is Err ==> *final(self) == *old(self),
    {
        let length = self.len();
        if index >= length {
            return Err(Error::index_out_of_bounds(length, index));
        }
        if self.qtype != qtype::TIMESTAMP_LIST {
            return Err(Error::invalid_operation("remove_timestamp", self.qtype, Some(qtype::TIMESTAMP_LIST)));
        }
        match &mut self.value {
            KValue::List(KList::Long(v)) => {
                let x = v.remove(index);
                Ok(q_timestamp_to_datetime(x))
            },
            _ => Err(Error::pop_from_empty_list()),
        }
    }

    /// Remove the element at `index` of a q month list.
    pub fn remove_month(&mut self, index: usize) -> (r: Result<Date, Error>)
        requires
            q_len(old(self)@) is Some,
            old(self).qtype == qtype::MONTH_LIST ==> old(self)@.shaped(),
            old(self).qtype == qtype::MONTH_LIST && index < q_len(old(self)@).unwrap() ==> q_month_convertible(
                old(self)@.value->Ints_0[index as int],
            ),
        ensures
            viewed(r) == remove_result(old(self)@, "remove_month", qtype::MONTH_LIST, index, month_of_q((old(self)@.value->Ints_0[index as int]))),
            r is Ok ==> final(self)@ == with_value(
                old(self)@,
                removed_at(old(self)@.value, index as int),
            ),
            r is Err ==> *final(self) == *old(self),
    {
        let length = self.len();
        if index >= length {
            return Err(Error::index_out_of_bounds(length, index));
        }
        if self.qtype != qtype::MONTH_LIST {
            return Err(Error::invalid_operation("remove_month", self.qtype, Some(qtype::MONTH_LIST)));
        }
        match &mut self.value {
            KValue::List(KList::Int(v)) => {
                let x = v.remove(index);
                Ok(q_month_to_date(x))
            },
            _ => Err(Error::pop_from_empty_list()),
        }
    }

    /// Remove the element at `index` of a q date list.
    pub fn remove_date(&mut self, index: usize) -> (r: Result<Date, Error>)
        requires
            q_len(old(self)@) is Some,
            old(self).qtype == qtype::DATE_LIST ==> old(self)@.shaped(),
            old(self).qtype == qtype::DATE_LIST && index < q_len(old(self)@).unwrap() ==> q_date_convertible(
                old(self)@.value->Ints_0[index as int],
            ),
        ensures
            viewed(r) == remove_result(old(self)@, "remove_date", qtype::DATE_LIST, index, date_of_q((old(self)@.value->Ints_0[index as int]))),
            r is Ok ==> final(self)@ == with_value(
                old(self)@,
                removed_at(old(self)@.value, index as int),
            ),
            r is Err ==> *final(self) == *old(self),
    {
        let length = self.len();
        if index >= length {
            return Err(Error::index_out_of_bounds(length, index));
        }
        if self.qtype != qtype::DATE_LIST {
            return Err(Error::invalid_operation("remove_date", self.qtype, Some(qtype::DATE_LIST)));
        }
        match &mut self.value {
            KValue::List(KList::Int(v)) => {
                let x = v.remove(index);
                Ok(q_date_to_date(x))
            },
            _ => Err(Error::pop_from_empty_list()),
        }
    }

    /// Remove the element at `index` of a q datetime list.
    pub fn remove_datetime(&mut self, index: usize) -> (r: Result<u64, Error>)
        requires
            q_len(old(self)@) is Some,
            old(self).qtype == qtype::DATETIME_LIST ==> old(self)@.shaped(),
        ensures
            r == remove_result(old(self)@, "remove_datetime", qtype::DATETIME_LIST, index, (old(self)@.value->Floats_0[index as int])),
            r is Ok ==> final(self)@ == with_value(
                old(self)@,
                removed_at(old(self)@.value, index as int),
            ),
            r is Err ==> *final(self) == *old(self),
    {
        let length = self.len();
        if index >= length {
            return Err(Error::index_out_of_bounds(length, index));
        }
        if self.qtype != qtype::DATETIME_LIST {
            return Err(Error::invalid_operation("remove_datetime", self.qtype, Some(qtype::DATETIME_LIST)));
        }
        match &mut self.value {
            KValue::List(KList::Float(v)) => {
                let x = v.remove(index);
                Ok(x)
            },
            _ => Err(Error::pop_from_empty_list()),
        }
    }

    /// Remove the element at `index` of a q timespan list.
    pub fn remove_timespan(&mut self, index: usize) -> (r: Result<Duration, Error>)
        requires
            q_len(old(self)@) is Some,
            old(self).qtype == qtype::TIMESPAN_LIST ==> old(self)@.shaped(),
        ensures
            viewed(r) == remove_result(old(self)@, "remove_timespan", qtype::TIMESPAN_LIST, index, (old(self)@.value->Longs_0[index as int]) as int),
            r is Ok ==> final(self)@ == with_value(
                old(self)@,
                removed_at(old(self)@.value, index as int),
            ),
            r is Err ==> *final(self) == *old(self),
    {
        let length = self.len();
        if index >= length {
            return Err(Error::index_out_of_bounds(length, index));
        }
        if self.qtype != qtype::TIMESPAN_LIST {
            return Err(Error::invalid_operation("remove_timespan", self.qtype, Some(qtype::TIMESPAN_LIST)));
        }
        match &mut self.value {
            KValue::List(KList::Long(v)) => {
                let x = v.remove(index);
                Ok(q_timespan_to_duration(x))
            },
            _ => Err(Error::pop_from_empty_list()),
        }
    }

    /// Remove the element at `index` of a q minute list.
    pub fn remove_minute(&mut self, index: usize) -> (r: Result<Duration, Error>)
        requires
            q_len(old(self)@) is Some,
            old(self).qtype == qtype::MINUTE_LIST ==> old(self)@.shaped(),
        ensures
            viewed(r) == remove_result(old(self)@, "remove_minute", qtype::MINUTE_LIST, index, (old(self)@.value->Ints_0[index as int]) * 60_000_000_000),
            r is Ok ==> final(self)@ == with_value(
                old(self)@,
                removed_at(old(self)@.value, index as int),
            ),
            r is Err ==> *final(self) == *old(self),
    {
        let length = self.len();
        if index >= length {
            return Err(Error::index_out_of_bounds(length, index));
        }
        if self.qtype != qtype::MINUTE_LIST {
            return Err(Error::invalid_operation("remove_minute", self.qtype, Some(qtype::MINUTE_LIST)));
        }
        match &mut self.value {
            KValue::List(KList::Int(v)) => {
                let x = v.remove(index);
                Ok(q_minute_to_duration(x))
            },
            _ => Err(Error::pop_from_empty_list()),
        }
    }

    /// Remove the element at `index` of a q second list.
    pub fn remove_second(&mut self, index: usize) -> (r: Result<Duration, Error>)
        requires
            q_len(old(self)@) is Some,
            old(self).qtype == qtype::SECOND_LIST ==> old(self)@.shaped(),
        ensures
            viewed(r) == remove_result(old(self)@, "remove_second", qtype::SECOND_LIST, index, (old(self)@.value->Ints_0[index as int]) * 1_000_000_000),
            r is Ok ==> final(self)@ == with_value(
                old(self)@,
                removed_at(old(self)@.value, index as int),
            ),
            r is Err ==> *final(self) == *old(self),
    {
        let length = self.len();
        if index >= length {
            return Err(Error::index_out_of_bounds(length, index));
        }
        if self.qtype != qtype::SECOND_LIST {
            return Err(Error::invalid_operation("remove_second", self.qtype, Some(qtype::SECOND_LIST)));
        }
        match &mut self.value {
            KValue::List(KList::Int(v)) => {
                let x = v.remove(index);
                Ok(q_second_to_duration(x))
            },
            _ => Err(Error::pop_from_empty_list()),
        }
    }

    /// Remove the element at `index` of a q time list.
    pub fn remove_time(&mut self, index: usize) -> (r: Result<Duration, Error>)
        requires
            q_len(old(self)@) is Some,
            old(self).qtype == qtype::TIME_LIST ==> old(self)@.shaped(),
        ensures
            viewed(r) == remove_result(old(self)@, "remove_time", qtype::TIME_LIST, index, (old(self)@.value->Ints_0[index as int]) * 1_000_000),
            r is Ok ==> final(self)@ == with_value(
                old(self)@,
                removed_at(old(self)@.value, index as int),
            ),
            r is Err ==> *final(self) == *old(self),
    {
        let length = self.len();
        if index >= length {
            return Err(Error::index_out_of_bounds(length, index));
        }
        if self.qtype != qtype::TIME_LIST {
            return Err(Error::invalid_operation("remove_time", self.qtype, Some(qtype::TIME_LIST)));
        }
        match &mut self.value {
            KValue::List(KList::Int(v)) => {
                let x = v.remove(index);
                Ok(q_time_to_duration(x))
            },
            _ => Err(Error::pop_from_empty_list()),
        }
    }

    /// Remove the character that starts at the byte offset `index` of a q string.
    pub fn remove_char(&mut self, index: usize) -> (r: Result<char, Error>)
        requires
            q_len(old(self)@) is Some,
            old(self).qtype == qtype::STRING ==> old(self)@.shaped(),
            old(self).qtype == qtype::STRING && index < q_len(old(self)@).unwrap()
                ==> on_char_boundary(old(self)@.value->Text_0, index as int),
        ensures
            r == remove_result(
                old(self)@,
                "remove_char",
                qtype::STRING,
                index,
                old(self)@.value->Text_0[char_index(old(self)@.value->Text_0, index as int)],
            ),
            r is Ok ==> final(self)@ == with_value(
                old(self)@,
                removed_at(old(self)@.value, item_position(old(self)@.value, index as int)),
            ),
            r is Err ==> *final(self) == *old(self),
    {
        let length = self.len();
        if index >= length {
            return Err(Error::index_out_of_bounds(length, index));
        }
        if self.qtype != qtype::STRING {
            return Err(Error::invalid_operation("remove_char", self.qtype, Some(qtype::STRING)));
        }
        match &mut self.value {
            KValue::Symbol(s) => Ok(string_remove(s, index)),
            _ => Err(Error::pop_from_empty_list()),
        }
    }

    /// Remove the element at `index` of a q list (the character at the byte offset `index` of
    /// a string), as a q object.
    pub fn remove(&mut self, index: usize) -> (r: Result<K, Error>)
        requires
            q_len(old(self)@) is Some,
            removable(old(self)@, index as int),
        ensures
            match remove_any_result(old(self)@, index) {
                Ok(o) => (r matches Ok(x) && x@ == o) && final(self)@ == with_value(
                    old(self)@,
                    removed_at(old(self)@.value, item_position(old(self)@.value, index as int)),
                ),
                Err(e) => r == Err::<K, Error>(e) && *final(self) == *old(self),
            },
    {
        let length = self.len();
        if index >= length {
            return Err(Error::index_out_of_bounds(length, index));
        }
        let t = self.qtype;
        if !(qtype::COMPOUND_LIST <= t && t <= qtype::TIME_LIST && t != 3) {
            return Err(Error::invalid_operation("remove", t, None));
        }
        let atom_type: i8 = -t;
        let ghost k0 = *self;
        proof {
            if k0@.value is Objects {
                lemma_compound_model(&k0);
            }
        }
        let r = match &mut self.value {
            KValue::List(KList::Byte(v)) => {
                let x = v.remove(index);
                let b: u8 = if t == qtype::BOOL_LIST {
                    if x != 0 {
                        1
                    } else {
                        0
                    }
                } else {
                    x
                };
                Ok(K::new(atom_type, qattribute::NONE, KValue::Byte(b)))
            },
            KValue::List(KList::Long(v)) => {
                let x = v.remove(index);
                if t == qtype::TIMESTAMP_LIST {
                    Ok(K::new_timestamp(q_timestamp_to_datetime(x)))
                } else {
                    Ok(K::new(atom_type, qattribute::NONE, KValue::Long(x)))
                }
            },
            KValue::List(KList::Int(v)) => {
                let x = v.remove(index);
                if t == qtype::MONTH_LIST {
                    Ok(K::new_month(q_month_to_date(x)))
                } else if t == qtype::DATE_LIST {
                    Ok(K::new_date(q_date_to_date(x)))
                } else {
                    Ok(K::new(atom_type, qattribute::NONE, KValue::Int(x)))
                }
            },
            KValue::List(KList::Guid(v)) => {
                let x = v.remove(index);
                Ok(K::new(atom_type, qattribute::NONE, KValue::Guid(x)))
            },
            KValue::List(KList::Short(v)) => {
                let x = v.remove(index);
                Ok(K::new(atom_type, qattribute::NONE, KValue::Short(x)))
            },
            KValue::List(KList::Real(v)) => {
                let x = v.remove(index);
                Ok(K::new(atom_type, qattribute::NONE, KValue::Real(x)))
            },
            KValue::List(KList::Float(v)) => {
                let x = v.remove(index);
                Ok(K::new(atom_type, qattribute::NONE, KValue::Float(x)))
            },
            KValue::List(KList::Symbol(v)) => {
                proof {
                    lemma_texts_remove(v@, index as int);
                }
                let x = v.remove(index);
                Ok(K::new(atom_type, qattribute::NONE, KValue::Symbol(x)))
            },
            KValue::Symbol(s) => Ok(K::new_char(string_remove(s, index))),
            KValue::List(KList::Compound(v)) => {
                proof {
                    lemma_models_remove(v@, index as int);
                }
                Ok(v.remove(index))
            },
            _ => Err(Error::pop_from_empty_list()),
        };
        proof {
            if self@.value is Objects {
                lemma_compound_model(self);
            }
        }
        r
    }
}

} // verus!
