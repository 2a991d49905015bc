//! The q object `K`: its representation, its mathematical model, constructors and getters.

use super::calendar::{Date, DateTime, Duration, trunc_div};
use super::error::Error;
use super::qtime::{ONE_DAY_NANOS, KDB_MONTH_OFFSET, KDB_DAY_OFFSET, KDB_TIMESTAMP_OFFSET, QNULL_TIMESTAMP_NANOS, timestamp_convertible, q_timestamp_of, q_month_of, q_date_of, datetime_of_q_timestamp, q_month_convertible, month_of_q, q_date_convertible, date_of_q, datetime_to_q_timestamp, date_to_q_month, date_to_q_date};
use crate::{qattribute, qtype};
use vstd::prelude::*;

verus! {

//%% Representation %%//vvvvvvvvvvvvvvvvvvvvvvvvvvvvvv/

/// Elements of a q list. Reals and floats are held as their IEEE-754 bit patterns.
#[derive(Debug)]
pub enum KList {
    Byte(Vec<u8>),
    Guid(Vec<[u8; 16]>),
    Short(Vec<i16>),
    Int(Vec<i32>),
    Long(Vec<i64>),
    Real(Vec<u32>),
    Float(Vec<u64>),
    Symbol(Vec<String>),
    Compound(Vec<K>),
}

/// Value of a q object. Characters of a string, a symbol and an error message are held as a
/// `String`; reals and floats are held as their IEEE-754 bit patterns.
#[derive(Debug)]
pub enum KValue {
    Byte(u8),
    Guid([u8; 16]),
    Short(i16),
    Int(i32),
    Long(i64),
    Real(u32),
    Float(u64),
    Symbol(String),
    Table(Box<K>),
    List(KList),
    Null,
}

/// q object: a type indicator, an attribute and a value.
#[derive(Debug)]
pub struct K {
    pub qtype: i8,
    pub attribute: i8,
    pub value: KValue,
}

//%% Model %%//vvvvvvvvvvvvvvvvvvvvvvvvvvvvvvvvvvvvvvvv/

/// Mathematical value of a q object.
pub enum QValue {
    Byte(u8),
    Guid([u8; 16]),
    Short(i16),
    Int(i32),
    Long(i64),
    Real(u32),
    Float(u64),
    Text(Seq<char>),
    Table(Box<QObject>),
    Bytes(Seq<u8>),
    Guids(Seq<[u8; 16]>),
    Shorts(Seq<i16>),
    Ints(Seq<i32>),
    Longs(Seq<i64>),
    Reals(Seq<u32>),
    Floats(Seq<u64>),
    Symbols(Seq<Seq<char>>),
    Objects(Seq<QObject>),
    Null,
}

/// Mathematical q object.
pub struct QObject {
    pub qtype: i8,
    pub attribute: i8,
    pub value: QValue,
}

/// Types whose atoms hold an int.
pub open spec fn is_int_atom_type(t: i8) -> bool {
    t == qtype::INT_ATOM || t == qtype::MONTH_ATOM || t == qtype::DATE_ATOM || t
        == qtype::MINUTE_ATOM || t == qtype::SECOND_ATOM || t == qtype::TIME_ATOM
}

/// Types whose atoms hold a long.
pub open spec fn is_long_atom_type(t: i8) -> bool {
    t == qtype::LONG_ATOM || t == qtype::TIMESTAMP_ATOM || t == qtype::TIMESPAN_ATOM
}

/// Types whose atoms hold a byte.
pub open spec fn is_byte_atom_type(t: i8) -> bool {
    t == qtype::BOOL_ATOM || t == qtype::BYTE_ATOM || t == qtype::CHAR
}

/// Types whose lists hold ints.
pub open spec fn is_int_list_type(t: i8) -> bool {
    t == qtype::INT_LIST || t == qtype::MONTH_LIST || t == qtype::DATE_LIST || t
        == qtype::MINUTE_LIST || t == qtype::SECOND_LIST || t == qtype::TIME_LIST
}

/// Types whose lists hold longs.
pub open spec fn is_long_list_type(t: i8) -> bool {
    t == qtype::LONG_LIST || t == qtype::TIMESTAMP_LIST || t == qtype::TIMESPAN_LIST
}

/// Types that `as_vec` and `as_mut_vec` accept.
pub open spec fn is_vector_type(t: i8) -> bool {
    (qtype::COMPOUND_LIST <= t <= qtype::TIME_LIST && t != 3 && t != qtype::STRING) || t
        == qtype::DICTIONARY || t == qtype::SORTED_DICTIONARY
}

impl QObject {
    /// The value of the object agrees with its type indicator, throughout.
    pub open spec fn wf(self) -> bool
        decreases self,
    {
        let t = self.qtype;
        match self.value {
            QValue::Byte(_) => is_byte_atom_type(t),
            QValue::Guid(_) => t == qtype::GUID_ATOM,
            QValue::Short(_) => t == qtype::SHORT_ATOM,
            QValue::Int(_) => is_int_atom_type(t),
            QValue::Long(_) => is_long_atom_type(t),
            QValue::Real(_) => t == qtype::REAL_ATOM,
            QValue::Float(_) => t == qtype::FLOAT_ATOM || t == qtype::DATETIME_ATOM,
            QValue::Text(_) => t == qtype::SYMBOL_ATOM || t == qtype::STRING || t == qtype::ERROR,
            QValue::Table(d) => t == qtype::TABLE && d.wf(),
            QValue::Bytes(_) => t == qtype::BOOL_LIST || t == qtype::BYTE_LIST,
            QValue::Guids(_) => t == qtype::GUID_LIST,
            QValue::Shorts(_) => t == qtype::SHORT_LIST,
            QValue::Ints(_) => is_int_list_type(t),
            QValue::Longs(_) => is_long_list_type(t),
            QValue::Reals(_) => t == qtype::REAL_LIST,
            QValue::Floats(_) => t == qtype::FLOAT_LIST || t == qtype::DATETIME_LIST,
            QValue::Symbols(_) => t == qtype::SYMBOL_LIST,
            QValue::Objects(v) => (t == qtype::COMPOUND_LIST || t == qtype::DICTIONARY || t
                == qtype::SORTED_DICTIONARY) && forall|i: int| 0 <= i < v.len() ==> #[trigger] v[i].wf(),
            QValue::Null => t == qtype::NULL,
        }
    }
}

impl QObject {
    /// The value of the object agrees with its type indicator at the top level (the elements of
    /// a compound list and the dictionary of a table are not looked into).
    pub open spec fn shaped(self) -> bool {
        let t = self.qtype;
        match self.value {
            QValue::Byte(_) => is_byte_atom_type(t),
            QValue::Guid(_) => t == qtype::GUID_ATOM,
            QValue::Short(_) => t == qtype::SHORT_ATOM,
            QValue::Int(_) => is_int_atom_type(t),
            QValue::Long(_) => is_long_atom_type(t),
            QValue::Real(_) => t == qtype::REAL_ATOM,
            QValue::Float(_) => t == qtype::FLOAT_ATOM || t == qtype::DATETIME_ATOM,
            QValue::Text(_) => t == qtype::SYMBOL_ATOM || t == qtype::STRING || t == qtype::ERROR,
            QValue::Table(_) => t == qtype::TABLE,
            QValue::Bytes(_) => t == qtype::BOOL_LIST || t == qtype::BYTE_LIST,
            QValue::Guids(_) => t == qtype::GUID_LIST,
            QValue::Shorts(_) => t == qtype::SHORT_LIST,
            QValue::Ints(_) => is_int_list_type(t),
            QValue::Longs(_) => is_long_list_type(t),
            QValue::Reals(_) => t == qtype::REAL_LIST,
            QValue::Floats(_) => t == qtype::FLOAT_LIST || t == qtype::DATETIME_LIST,
            QValue::Symbols(_) => t == qtype::SYMBOL_LIST,
            QValue::Objects(_) => t == qtype::COMPOUND_LIST || t == qtype::DICTIONARY || t
                == qtype::SORTED_DICTIONARY,
            QValue::Null => t == qtype::NULL,
        }
    }
}

/// An object that stands where the model has no element.
pub open spec fn absent_object() -> QObject {
    QObject { qtype: qtype::NULL, attribute: qattribute::NONE, value: QValue::Null }
}

/// Models of a sequence of objects.
pub open spec fn models(v: Seq<K>) -> Seq<QObject> {
    Seq::new(v.len(), |i: int| v[i]@)
}

/// Characters of each of a sequence of strings.
pub open spec fn texts(v: Seq<String>) -> Seq<Seq<char>> {
    v.map_values(|s: String| s@)
}

impl K {
    /// The model of the object.
    pub open spec fn model(&self) -> QObject
        decreases self,
    {
        QObject {
            qtype: self.qtype,
            attribute: self.attribute,
            value: match &self.value {
                KValue::Byte(x) => QValue::Byte(*x),
                KValue::Guid(x) => QValue::Guid(*x),
                KValue::Short(x) => QValue::Short(*x),
                KValue::Int(x) => QValue::Int(*x),
                KValue::Long(x) => QValue::Long(*x),
                KValue::Real(x) => QValue::Real(*x),
                KValue::Float(x) => QValue::Float(*x),
                KValue::Symbol(s) => QValue::Text(s@),
                KValue::Table(t) => QValue::Table(Box::new((**t).model())),
                KValue::List(KList::Byte(v)) => QValue::Bytes(v@),
                KValue::List(KList::Guid(v)) => QValue::Guids(v@),
                KValue::List(KList::Short(v)) => QValue::Shorts(v@),
                KValue::List(KList::Int(v)) => QValue::Ints(v@),
                KValue::List(KList::Long(v)) => QValue::Longs(v@),
                KValue::List(KList::Real(v)) => QValue::Reals(v@),
                KValue::List(KList::Float(v)) => QValue::Floats(v@),
                KValue::List(KList::Symbol(v)) => QValue::Symbols(texts(v@)),
                KValue::List(KList::Compound(v)) => QValue::Objects(
                    Seq::new(
                        v@.len(),
                        |i: int|
                            if 0 <= i < v@.len() {
                                v@[i].model()
                            } else {
                                absent_object()
                            },
                    ),
                ),
                KValue::Null => QValue::Null,
            },
        }
    }
}

impl View for K {
    type V = QObject;

    open spec fn view(&self) -> QObject {
        self.model()
    }
}

/// The model of a compound list is the models of its elements.
pub proof fn lemma_compound_model(k: &K)
    requires
        k@.value is Objects || k.value matches KValue::List(KList::Compound(_)),
    ensures
        k.value matches KValue::List(KList::Compound(_)),
        k@.value == QValue::Objects(models(k.value->List_0->Compound_0@)),
{
    let v = k.value->List_0->Compound_0;
    let s = k@.value->Objects_0;
    assert(k@.value is Objects);
    assert(s.len() == v@.len());
    assert forall|i: int| 0 <= i < s.len() implies s[i] == models(v@)[i] by {}
    assert(s =~= models(v@));
}

//%% Clone %%//vvvvvvvvvvvvvvvvvvvvvvvvvvvvvvvvvvvvvvvv/

/// A copy of a vector of plain values.
pub(crate) fn copy_vec<T: Copy>(v: &Vec<T>) -> (r: Vec<T>)
    ensures
        r@ == v@,
{
    let mut r: Vec<T> = Vec::new();
    let mut i: usize = 0;
    while i < v.len()
        invariant
            i <= v.len(),
            r@ == v@.subrange(0, i as int),
        decreases v.len() - i,
    {
        r.push(v[i]);
        i += 1;
        assert(r@ =~= v@.subrange(0, i as int));
    }
    assert(v@.subrange(0, v.len() as int) =~= v@);
    r
}

fn clone_strings(v: &Vec<String>) -> (r: Vec<String>)
    ensures
        r@ == v@,
{
    let mut r: Vec<String> = Vec::new();
    let mut i: usize = 0;
    while i < v.len()
        invariant
            i <= v.len(),
            r@ == v@.subrange(0, i as int),
        decreases v.len() - i,
    {
        r.push(v[i].clone());
        i += 1;
        assert(r@ =~= v@.subrange(0, i as int));
    }
    assert(v@.subrange(0, v.len() as int) =~= v@);
    r
}

fn clone_objects(v: &Vec<K>) -> (r: Vec<K>)
    ensures
        models(r@) == models(v@),
    decreases v@,
{
    let mut r: Vec<K> = Vec::new();
    let mut i: usize = 0;
    while i < v.len()
        invariant
            i <= v.len(),
            r.len() == i,
            forall|j: int| 0 <= j < i ==> #[trigger] r@[j]@ == v@[j]@,
        decreases v.len() - i,
    {
        assert(decreases_to!(v@ => v@[i as int]));
        r.push(clone_object(&v[i]));
        i += 1;
    }
    assert(models(r@) =~= models(v@));
    r
}

fn clone_object(k: &K) -> (r: K)
    ensures
        r@ == k@,
    decreases k,
{
    let value = match &k.value {
        KValue::Byte(x) => KValue::Byte(*x),
        KValue::Guid(x) => KValue::Guid(*x),
        KValue::Short(x) => KValue::Short(*x),
        KValue::Int(x) => KValue::Int(*x),
        KValue::Long(x) => KValue::Long(*x),
        KValue::Real(x) => KValue::Real(*x),
        KValue::Float(x) => KValue::Float(*x),
        KValue::Symbol(s) => KValue::Symbol(s.clone()),
        KValue::Table(t) => KValue::Table(Box::new(clone_object(t))),
        KValue::List(KList::Byte(v)) => KValue::List(KList::Byte(copy_vec(v))),
        KValue::List(KList::Guid(v)) => KValue::List(KList::Guid(copy_vec(v))),
        KValue::List(KList::Short(v)) => KValue::List(KList::Short(copy_vec(v))),
        KValue::List(KList::Int(v)) => KValue::List(KList::Int(copy_vec(v))),
        KValue::List(KList::Long(v)) => KValue::List(KList::Long(copy_vec(v))),
        KValue::List(KList::Real(v)) => KValue::List(KList::Real(copy_vec(v))),
        KValue::List(KList::Float(v)) => KValue::List(KList::Float(copy_vec(v))),
        KValue::List(KList::Symbol(v)) => KValue::List(KList::Symbol(clone_strings(v))),
        KValue::List(KList::Compound(v)) => KValue::List(KList::Compound(clone_objects(v))),
        KValue::Null => KValue::Null,
    };
    let r = K { qtype: k.qtype, attribute: k.attribute, value };
    proof {
        if let KValue::List(KList::Compound(v)) = &k.value {
            lemma_compound_model(k);
            lemma_compound_model(&r);
        }
    }
    r
}

impl Clone for K {
    fn clone(&self) -> (r: Self)
        ensures
            r@ == self@,
    {
        clone_object(self)
    }
}

//%% Constructors %%//vvvvvvvvvvvvvvvvvvvvvvvvvvvvvvvv/

/// An atom of type `qtype` with no attribute.
pub open spec fn atom(qtype: i8, value: QValue) -> QObject {
    QObject { qtype, attribute: qattribute::NONE, value }
}

/// A list of type `qtype`.
pub open spec fn list_of(qtype: i8, attribute: i8, value: QValue) -> QObject {
    QObject { qtype, attribute, value }
}

/// Byte value of a boolean.
pub open spec fn bool_byte(b: bool) -> u8 {
    if b {
        1
    } else {
        0
    }
}

/// Low byte of a character, as a q char holds it.
pub open spec fn char_byte(c: char) -> u8 {
    ((c as u32) % 256) as u8
}

/// Whether a duration fits a q timespan (nanoseconds in an `i64`).
pub open spec fn timespan_convertible(nanos: int) -> bool {
    i64::MIN <= nanos <= i64::MAX
}

/// Whether a boolean list, given as bytes, is `v`.
pub open spec fn bool_bytes(v: Seq<bool>) -> Seq<u8> {
    v.map_values(|b: bool| bool_byte(b))
}

impl K {
    pub(crate) fn new(qtype: i8, attribute: i8, inner: KValue) -> (r: Self)
        ensures
            r.qtype == qtype,
            r.attribute == attribute,
            r.value == inner,
    {
        K { qtype, attribute, value: inner }
    }

    /// Construct q bool from `bool`.
    pub fn new_bool(boolean: bool) -> (r: Self)
        ensures
            r@ == atom(qtype::BOOL_ATOM, QValue::Byte(bool_byte(boolean))),
    {
        K::new(qtype::BOOL_ATOM, qattribute::NONE, KValue::Byte(if boolean { 1 } else { 0 }))
    }

    /// Construct q GUID from `[u8; 16]`.
    pub fn new_guid(guid: [u8; 16]) -> (r: Self)
        ensures
            r@ == atom(qtype::GUID_ATOM, QValue::Guid(guid)),
    {
        K::new(qtype::GUID_ATOM, qattribute::NONE, KValue::Guid(guid))
    }

    /// Construct q byte from `u8`.
    pub fn new_byte(byte: u8) -> (r: Self)
        ensures
            r@ == atom(qtype::BYTE_ATOM, QValue::Byte(byte)),
    {
        K::new(qtype::BYTE_ATOM, qattribute::NONE, KValue::Byte(byte))
    }

    /// Construct q short from `i16`.
    pub fn new_short(short: i16) -> (r: Self)
        ensures
            r@ == atom(qtype::SHORT_ATOM, QValue::Short(short)),
    {
        K::new(qtype::SHORT_ATOM, qattribute::NONE, KValue::Short(short))
    }

    /// Construct q int from `i32`.
    pub fn new_int(int_value: i32) -> (r: Self)
        ensures
            r@ == atom(qtype::INT_ATOM, QValue::Int(int_value)),
    {
        K::new(qtype::INT_ATOM, qattribute::NONE, KValue::Int(int_value))
    }

    /// Construct q long from `i64`.
    pub fn new_long(long: i64) -> (r: Self)
        ensures
            r@ == atom(qtype::LONG_ATOM, QValue::Long(long)),
    {
        K::new(qtype::LONG_ATOM, qattribute::NONE, KValue::Long(long))
    }

    /// Construct q real from the bit pattern of an `f32`.
    pub fn new_real(real_value: u32) -> (r: Self)
        ensures
            r@ == atom(qtype::REAL_ATOM, QValue::Real(real_value)),
    {
        K::new(qtype::REAL_ATOM, qattribute::NONE, KValue::Real(real_value))
    }

    /// Construct q float from the bit pattern of an `f64`.
    pub fn new_float(float: u64) -> (r: Self)
        ensures
            r@ == atom(qtype::FLOAT_ATOM, QValue::Float(float)),
    {
        K::new(qtype::FLOAT_ATOM, qattribute::NONE, KValue::Float(float))
    }

    /// Construct q char from `char`; q keeps its low byte.
    pub fn new_char(character: char) -> (r: Self)
        ensures
            r@ == atom(qtype::CHAR, QValue::Byte(char_byte(character))),
    {
        K::new(qtype::CHAR, qattribute::NONE, KValue::Byte(((character as u32) % 256) as u8))
    }

    /// Construct q symbol from `String`.
    pub fn new_symbol(symbol: String) -> (r: Self)
        ensures
            r@ == atom(qtype::SYMBOL_ATOM, QValue::Text(symbol@)),
    {
        K::new(qtype::SYMBOL_ATOM, qattribute::NONE, KValue::Symbol(symbol))
    }

    /// Construct q timestamp from a point in time.
    pub fn new_timestamp(timestamp: DateTime) -> (r: Self)
        requires
            timestamp_convertible(timestamp@),
        ensures
            r@ == atom(qtype::TIMESTAMP_ATOM, QValue::Long(q_timestamp_of(timestamp@))),
    {
        K::new(qtype::TIMESTAMP_ATOM, qattribute::NONE, KValue::Long(datetime_to_q_timestamp(timestamp)))
    }

    /// Construct q month from a date.
    pub fn new_month(month: Date) -> (r: Self)
        ensures
            r@ == atom(qtype::MONTH_ATOM, QValue::Int(q_month_of(month@))),
    {
        K::new(qtype::MONTH_ATOM, qattribute::NONE, KValue::Int(date_to_q_month(month)))
    }

    /// Construct q date from a date.
    pub fn new_date(date: Date) -> (r: Self)
        ensures
            r@ == atom(qtype::DATE_ATOM, QValue::Int(q_date_of(date@))),
    {
        K::new(qtype::DATE_ATOM, qattribute::NONE, KValue::Int(date_to_q_date(date)))
    }

    /// Construct q datetime from the bit pattern of an `f64` counting days since 2000.01.01.
    pub fn new_datetime(datetime: u64) -> (r: Self)
        ensures
            r@ == atom(qtype::DATETIME_ATOM, QValue::Float(datetime)),
    {
        K::new(qtype::DATETIME_ATOM, qattribute::NONE, KValue::Float(datetime))
    }

    /// Construct q timespan from a duration.
    pub fn new_timespan(duration: Duration) -> (r: Self)
        requires
            timespan_convertible(duration@),
        ensures
            r@ == atom(qtype::TIMESPAN_ATOM, QValue::Long(duration@ as i64)),
    {
        let nanos = match duration.num_nanoseconds() {
            Some(n) => n,
            None => 0,
        };
        K::new(qtype::TIMESPAN_ATOM, qattribute::NONE, KValue::Long(nanos))
    }

    /// Construct q minute from a duration: its whole minutes, truncated to `i32`.
    pub fn new_minute(minute: Duration) -> (r: Self)
        ensures
            r@ == atom(qtype::MINUTE_ATOM, QValue::Int(trunc_div(minute@, 60_000_000_000) as i32)),
    {
        K::new(qtype::MINUTE_ATOM, qattribute::NONE, KValue::Int(minute.num_minutes() as i32))
    }

    /// Construct q second from a duration: its whole seconds, truncated to `i32`.
    pub fn new_second(second: Duration) -> (r: Self)
        ensures
            r@ == atom(qtype::SECOND_ATOM, QValue::Int(trunc_div(second@, 1_000_000_000) as i32)),
    {
        K::new(qtype::SECOND_ATOM, qattribute::NONE, KValue::Int(second.num_seconds() as i32))
    }

    /// Construct q time from a duration: its whole milliseconds, truncated to `i32`.
    pub fn new_time(time: Duration) -> (r: Self)
        ensures
            r@ == atom(qtype::TIME_ATOM, QValue::Int(trunc_div(time@, 1_000_000) as i32)),
    {
        K::new(qtype::TIME_ATOM, qattribute::NONE, KValue::Int(time.num_milliseconds() as i32))
    }

    /// Construct q bool list from `Vec<bool>`.
    pub fn new_bool_list(list: Vec<bool>, attribute: i8) -> (r: Self)
        ensures
            r@ == list_of(qtype::BOOL_LIST, attribute, QValue::Bytes(bool_bytes(list@))),
    {
        let mut array: Vec<u8> = Vec::new();
        let mut i: usize = 0;
        while i < list.len()
            invariant
                i <= list.len(),
                array@ == bool_bytes(list@.subrange(0, i as int)),
            decreases list.len() - i,
        {
            array.push(if list[i] { 1 } else { 0 });
            i += 1;
            assert(array@ =~= bool_bytes(list@.subrange(0, i as int)));
        }
        assert(list@.subrange(0, list.len() as int) =~= list@);
        K::new(qtype::BOOL_LIST, attribute, KValue::List(KList::Byte(array)))
    }

    /// Construct q GUID list from `Vec<[u8; 16]>`.
    pub fn new_guid_list(list: Vec<[u8; 16]>, attribute: i8) -> (r: Self)
        ensures
            r@ == list_of(qtype::GUID_LIST, attribute, QValue::Guids(list@)),
    {
        K::new(qtype::GUID_LIST, attribute, KValue::List(KList::Guid(list)))
    }

    /// Construct q byte list from `Vec<u8>`.
    pub fn new_byte_list(list: Vec<u8>, attribute: i8) -> (r: Self)
        ensures
            r@ == list_of(qtype::BYTE_LIST, attribute, QValue::Bytes(list@)),
    {
        K::new(qtype::BYTE_LIST, attribute, KValue::List(KList::Byte(list)))
    }

    /// Construct q short list from `Vec<i16>`.
    pub fn new_short_list(list: Vec<i16>, attribute: i8) -> (r: Self)
        ensures
            r@ == list_of(qtype::SHORT_LIST, attribute, QValue::Shorts(list@)),
    {
        K::new(qtype::SHORT_LIST, attribute, KValue::List(KList::Short(list)))
    }

    /// Construct q int list from `Vec<i32>`.
    pub fn new_int_list(list: Vec<i32>, attribute: i8) -> (r: Self)
        ensures
            r@ == list_of(qtype::INT_LIST, attribute, QValue::Ints(list@)),
    {
        K::new(qtype::INT_LIST, attribute, KValue::List(KList::Int(list)))
    }

    /// Construct q long list from `Vec<i64>`.
    pub fn new_long_list(list: Vec<i64>, attribute: i8) -> (r: Self)
        ensures
            r@ == list_of(qtype::LONG_LIST, attribute, QValue::Longs(list@)),
    {
        K::new(qtype::LONG_LIST, attribute, KValue::List(KList::Long(list)))
    }

    /// Construct q real list from bit patterns of `f32`s.
    pub fn new_real_list(list: Vec<u32>, attribute: i8) -> (r: Self)
        ensures
            r@ == list_of(qtype::REAL_LIST, attribute, QValue::Reals(list@)),
    {
        K::new(qtype::REAL_LIST, attribute, KValue::List(KList::Real(list)))
    }

    /// Construct q float list from bit patterns of `f64`s.
    pub fn new_float_list(list: Vec<u64>, attribute: i8) -> (r: Self)
        ensures
            r@ == list_of(qtype::FLOAT_LIST, attribute, QValue::Floats(list@)),
    {
        K::new(qtype::FLOAT_LIST, attribute, KValue::List(KList::Float(list)))
    }

    /// Construct q string from `String`.
    pub fn new_string(string: String, attribute: i8) -> (r: Self)
        ensures
            r@ == list_of(qtype::STRING, attribute, QValue::Text(string@)),
    {
        K::new(qtype::STRING, attribute, KValue::Symbol(string))
    }

    /// Construct q symbol list from `Vec<String>`.
    pub fn new_symbol_list(list: Vec<String>, attribute: i8) -> (r: Self)
        ensures
            r@ == list_of(qtype::SYMBOL_LIST, attribute, QValue::Symbols(texts(list@))),
    {
        K::new(qtype::SYMBOL_LIST, attribute, KValue::List(KList::Symbol(list)))
    }

    /// Construct q timestamp list from points in time.
    pub fn new_timestamp_list(list: Vec<DateTime>, attribute: i8) -> (r: Self)
        requires
            forall|i: int| 0 <= i < list@.len() ==> timestamp_convertible(#[trigger] list@[i]@),
        ensures
            r@ == list_of(
                qtype::TIMESTAMP_LIST,
                attribute,
                QValue::Longs(list@.map_values(|t: DateTime| q_timestamp_of(t@))),
            ),
    {
        let mut array: Vec<i64> = Vec::new();
        let mut i: usize = 0;
        while i < list.len()
            invariant
                i <= list.len(),
                forall|j: int| 0 <= j < list@.len() ==> timestamp_convertible(#[trigger] list@[j]@),
                array@ == list@.subrange(0, i as int).map_values(|t: DateTime| q_timestamp_of(t@)),
            decreases list.len() - i,
        {
            array.push(datetime_to_q_timestamp(list[i]));
            i += 1;
            assert(array@ =~= list@.subrange(0, i as int).map_values(
                |t: DateTime| q_timestamp_of(t@),
            ));
        }
        assert(list@.subrange(0, list.len() as int) =~= list@);
        K::new(qtype::TIMESTAMP_LIST, attribute, KValue::List(KList::Long(array)))
    }

    /// Construct q month list from dates.
    pub fn new_month_list(list: Vec<Date>, attribute: i8) -> (r: Self)
        ensures
            r@ == list_of(
                qtype::MONTH_LIST,
                attribute,
                QValue::Ints(list@.map_values(|d: Date| q_month_of(d@))),
            ),
    {
        let mut array: Vec<i32> = Vec::new();
        let mut i: usize = 0;
        while i < list.len()
            invariant
                i <= list.len(),
                array@ == list@.subrange(0, i as int).map_values(|d: Date| q_month_of(d@)),
            decreases list.len() - i,
        {
            array.push(date_to_q_month(list[i]));
            i += 1;
            assert(array@ =~= list@.subrange(0, i as int).map_values(|d: Date| q_month_of(d@)));
        }
        assert(list@.subrange(0, list.len() as int) =~= list@);
        K::new(qtype::MONTH_LIST, attribute, KValue::List(KList::Int(array)))
    }

    /// Construct q date list from dates.
    pub fn new_date_list(list: Vec<Date>, attribute: i8) -> (r: Self)
        ensures
            r@ == list_of(
                qtype::DATE_LIST,
                attribute,
                QValue::Ints(list@.map_values(|d: Date| q_date_of(d@))),
            ),
    {
        let mut array: Vec<i32> = Vec::new();
        let mut i: usize = 0;
        while i < list.len()
            invariant
                i <= list.len(),
                array@ == list@.subrange(0, i as int).map_values(|d: Date| q_date_of(d@)),
            decreases list.len() - i,
        {
            array.push(date_to_q_date(list[i]));
            i += 1;
            assert(array@ =~= list@.subrange(0, i as int).map_values(|d: Date| q_date_of(d@)));
        }
        assert(list@.subrange(0, list.len() as int) =~= list@);
        K::new(qtype::DATE_LIST, attribute, KValue::List(KList::Int(array)))
    }

    /// Construct q datetime list from bit patterns of `f64`s counting days since 2000.01.01.
    pub fn new_datetime_list(list: Vec<u64>, attribute: i8) -> (r: Self)
        ensures
            r@ == list_of(qtype::DATETIME_LIST, attribute, QValue::Floats(list@)),
    {
        K::new(qtype::DATETIME_LIST, attribute, KValue::List(KList::Float(list)))
    }

    /// Construct q timespan list from durations.
    pub fn new_timespan_list(list: Vec<Duration>, attribute: i8) -> (r: Self)
        requires
            forall|i: int| 0 <= i < list@.len() ==> timespan_convertible(#[trigger] list@[i]@),
        ensures
            r@ == list_of(
                qtype::TIMESPAN_LIST,
                attribute,
                QValue::Longs(list@.map_values(|d: Duration| d@ as i64)),
            ),
    {
        let mut array: Vec<i64> = Vec::new();
        let mut i: usize = 0;
        while i < list.len()
            invariant
                i <= list.len(),
                forall|j: int| 0 <= j < list@.len() ==> timespan_convertible(#[trigger] list@[j]@),
                array@ == list@.subrange(0, i as int).map_values(|d: Duration| d@ as i64),
            decreases list.len() - i,
        {
            let n = match list[i].num_nanoseconds() {
                Some(n) => n,
                None => 0,
            };
            array.push(n);
            i += 1;
            assert(array@ =~= list@.subrange(0, i as int).map_values(|d: Duration| d@ as i64));
        }
        assert(list@.subrange(0, list.len() as int) =~= list@);
        K::new(qtype::TIMESPAN_LIST, attribute, KValue::List(KList::Long(array)))
    }

    /// Construct q minute list from durations.
    pub fn new_minute_list(list: Vec<Duration>, attribute: i8) -> (r: Self)
        ensures
            r@ == list_of(
                qtype::MINUTE_LIST,
                attribute,
                QValue::Ints(list@.map_values(|d: Duration| trunc_div(d@, 60_000_000_000) as i32)),
            ),
    {
        let mut array: Vec<i32> = Vec::new();
        let mut i: usize = 0;
        while i < list.len()
            invariant
                i <= list.len(),
                array@ == list@.subrange(0, i as int).map_values(
                    |d: Duration| trunc_div(d@, 60_000_000_000) as i32,
                ),
            decreases list.len() - i,
        {
            array.push(list[i].num_minutes() as i32);
            i += 1;
            assert(array@ =~= list@.subrange(0, i as int).map_values(
                |d: Duration| trunc_div(d@, 60_000_000_000) as i32,
            ));
        }
        assert(list@.subrange(0, list.len() as int) =~= list@);
        K::new(qtype::MINUTE_LIST, attribute, KValue::List(KList::Int(array)))
    }

    /// Construct q second list from durations.
    pub fn new_second_list(list: Vec<Duration>, attribute: i8) -> (r: Self)
        ensures
            r@ == list_of(
                qtype::SECOND_LIST,
                attribute,
                QValue::Ints(list@.map_values(|d: Duration| trunc_div(d@, 1_000_000_000) as i32)),
            ),
    {
        let mut array: Vec<i32> = Vec::new();
        let mut i: usize = 0;
        while i < list.len()
            invariant
                i <= list.len(),
                array@ == list@.subrange(0, i as int).map_values(
                    |d: Duration| trunc_div(d@, 1_000_000_000) as i32,
                ),
            decreases list.len() - i,
        {
            array.push(list[i].num_seconds() as i32);
            i += 1;
            assert(array@ =~= list@.subrange(0, i as int).map_values(
                |d: Duration| trunc_div(d@, 1_000_000_000) as i32,
            ));
        }
        assert(list@.subrange(0, list.len() as int) =~= list@);
        K::new(qtype::SECOND_LIST, attribute, KValue::List(KList::Int(array)))
    }

    /// Construct q time list from durations.
    pub fn new_time_list(list: Vec<Duration>, attribute: i8) -> (r: Self)
        ensures
            r@ == list_of(
                qtype::TIME_LIST,
                attribute,
                QValue::Ints(list@.map_values(|d: Duration| trunc_div(d@, 1_000_000) as i32)),
            ),
    {
        let mut array: Vec<i32> = Vec::new();
        let mut i: usize = 0;
        while i < list.len()
            invariant
                i <= list.len(),
                array@ == list@.subrange(0, i as int).map_values(
                    |d: Duration| trunc_div(d@, 1_000_000) as i32,
                ),
            decreases list.len() - i,
        {
            array.push(list[i].num_milliseconds() as i32);
            i += 1;
            assert(array@ =~= list@.subrange(0, i as int).map_values(
                |d: Duration| trunc_div(d@, 1_000_000) as i32,
            ));
        }
        assert(list@.subrange(0, list.len() as int) =~= list@);
        K::new(qtype::TIME_LIST, attribute, KValue::List(KList::Int(array)))
    }

    /// Construct q compound list from `Vec<K>`.
    pub fn new_compound_list(list: Vec<K>) -> (r: Self)
        ensures
            r@ == list_of(qtype::COMPOUND_LIST, qattribute::NONE, QValue::Objects(models(list@))),
    {
        let r = K::new(qtype::COMPOUND_LIST, qattribute::NONE, KValue::List(KList::Compound(list)));
        proof {
            lemma_compound_model(&r);
        }
        r
    }

    /// Construct q general null.
    pub fn new_null() -> (r: Self)
        ensures
            r@ == atom(qtype::NULL, QValue::Null),
    {
        K::new(qtype::NULL, qattribute::NONE, KValue::Null)
    }

    /// Construct q error object from its message.
    pub fn new_error(error: String) -> (r: Self)
        ensures
            r@ == atom(qtype::ERROR, QValue::Text(error@)),
    {
        K::new(qtype::ERROR, qattribute::NONE, KValue::Symbol(error))
    }
}

} // verus!
