//! Dictionaries and tables: building them, adding and taking key-value pairs, and moving
//! between a table and a keyed table.

use super::error::{Error, invalid_operation_error};
use super::list::{
    list_length, dropped_last, element_storable, inserted, is_list_type, item_count, pop_any_result, popped_object,
    push_error, q_len, with_value, ElementView, ListElement,
};
use super::error::str_eq;
use super::object::{is_vector_type, lemma_compound_model, models, texts, K, KList, KValue, QObject, QValue};
use crate::{qattribute, qtype};
use vstd::prelude::*;

verus! {

/// The type of a dictionary built with `keys`: sorted when the keys are.
pub open spec fn dictionary_type(keys: QObject) -> i8 {
    if keys.attribute == qattribute::SORTED {
        qtype::SORTED_DICTIONARY
    } else {
        qtype::DICTIONARY
    }
}

/// The dictionary of `keys` and `values`.
pub open spec fn dictionary_of(keys: QObject, values: QObject) -> QObject {
    QObject {
        qtype: dictionary_type(keys),
        attribute: qattribute::NONE,
        value: QValue::Objects(seq![keys, values]),
    }
}

/// The keys and the values of a dictionary model.
pub open spec fn entries(d: QObject) -> Seq<QObject> {
    d.value->Objects_0
}

impl K {
    /// Build a dictionary from keys and values of the same length. Sorted keys make a sorted
    /// dictionary.
    pub fn new_dictionary(keys: K, values: K) -> (r: Result<K, Error>)
        requires
            q_len(keys@) is Some,
            q_len(values@) is Some,
        ensures
            q_len(keys@) != q_len(values@) ==> r == Err::<K, Error>(
                Error::LengthMismatch {
                    key_length: q_len(keys@).unwrap() as usize,
                    value_length: q_len(values@).unwrap() as usize,
                },
            ),
            q_len(keys@) == q_len(values@) ==> (r matches Ok(d) && d@ == dictionary_of(
                keys@,
                values@,
            )),
    {
        let key_length = keys.len();
        let value_length = values.len();
        if key_length != value_length {
            Err(Error::length_mismatch(key_length, value_length))
        } else {
            let qtype = if keys.attribute == qattribute::SORTED {
                qtype::SORTED_DICTIONARY
            } else {
                qtype::DICTIONARY
            };
            let ghost key_model = keys@;
            let ghost value_model = values@;
            let d = K::new(qtype, qattribute::NONE, KValue::List(KList::Compound(vec![keys, values])));
            proof {
                lemma_compound_model(&d);
                assert(models(d.value->List_0->Compound_0@) =~= seq![key_model, value_model]);
            }
            Ok(d)
        }
    }

    /// Turn a dictionary of a symbol list of column names and a compound list of columns into a
    /// table. Any other object comes back in `Error::Object`.
    pub fn flip(self) -> (r: Result<K, Error>)
        requires
            (self.qtype == qtype::DICTIONARY || self.qtype == qtype::SORTED_DICTIONARY) ==> (
            self@.value is Objects && entries(self@).len() >= 2),
        ensures
            flippable(self@) ==> (r matches Ok(t) && t@ == table_of(self@)),
            !flippable(self@) ==> r == Err::<K, Error>(Error::Object(self)),
    {
        if self.qtype == qtype::DICTIONARY || self.qtype == qtype::SORTED_DICTIONARY {
            proof {
                lemma_compound_model(&self);
            }
            let ok = match &self.value {
                KValue::List(KList::Compound(kv)) => kv[0].qtype == qtype::SYMBOL_LIST && kv[1].qtype
                    == qtype::COMPOUND_LIST,
                _ => false,
            };
            if ok {
                Ok(K::new(qtype::TABLE, qattribute::NONE, KValue::Table(Box::new(self))))
            } else {
                Err(Error::object(self))
            }
        } else {
            Err(Error::object(self))
        }
    }
}

/// Whether `flip` turns `d` into a table.
pub open spec fn flippable(d: QObject) -> bool {
    (d.qtype == qtype::DICTIONARY || d.qtype == qtype::SORTED_DICTIONARY) && entries(d)[0].qtype
        == qtype::SYMBOL_LIST && entries(d)[1].qtype == qtype::COMPOUND_LIST
}

/// The table whose dictionary is `d`.
pub open spec fn table_of(d: QObject) -> QObject {
    QObject { qtype: qtype::TABLE, attribute: qattribute::NONE, value: QValue::Table(Box::new(d)) }
}

/// `k` after the element `e` is pushed onto it, when it takes `e`.
pub open spec fn after_push(k: QObject, e: ElementView) -> QObject {
    with_value(k, inserted(k, item_count(k.value), e).unwrap())
}

/// `k` after a pop that succeeds, else `k` itself.
pub open spec fn after_pop(k: QObject) -> QObject {
    if pop_any_result(k) is Ok {
        with_value(k, dropped_last(k.value))
    } else {
        k
    }
}

/// A list that took a pushed element has the shape of its type and gives the element back to
/// a pop, which leaves the list as it was.
pub(crate) proof fn lemma_push_then_pop(k: QObject, e: ElementView)
    requires
        inserted(k, item_count(k.value), e) is Some,
    ensures
        after_push(k, e).shaped(),
        is_list_type(after_push(k, e).qtype),
        q_len(after_push(k, e)) is Some,
        q_len(after_push(k, e)).unwrap() > 0,
        dropped_last(after_push(k, e).value) == k.value,
{
    let k1 = after_push(k, e);
    match k.value {
        QValue::Text(s) => {
            assert(k1.value->Text_0.drop_last() =~= s);
            super::list::lemma_text_len_zero(k1.value->Text_0);
        },
        QValue::Bytes(s) => assert(k1.value->Bytes_0.drop_last() =~= s),
        QValue::Guids(s) => assert(k1.value->Guids_0.drop_last() =~= s),
        QValue::Shorts(s) => assert(k1.value->Shorts_0.drop_last() =~= s),
        QValue::Ints(s) => assert(k1.value->Ints_0.drop_last() =~= s),
        QValue::Longs(s) => assert(k1.value->Longs_0.drop_last() =~= s),
        QValue::Reals(s) => assert(k1.value->Reals_0.drop_last() =~= s),
        QValue::Floats(s) => assert(k1.value->Floats_0.drop_last() =~= s),
        QValue::Symbols(s) => assert(k1.value->Symbols_0.drop_last() =~= s),
        QValue::Objects(s) => assert(k1.value->Objects_0.drop_last() =~= s),
        _ => {},
    }
}

/// The entries of a dictionary with its keys and its values replaced.
pub open spec fn with_entries(d: QObject, keys: QObject, values: QObject) -> QObject {
    with_value(d, QValue::Objects(entries(d).update(0, keys).update(1, values)))
}

impl K {
    /// Add a key-value pair to a dictionary: the key to its keys and the value to its values.
    /// Where the value does not fit, the key is taken out again.
    pub fn push_pair<A: ListElement, B: ListElement>(&mut self, key: &A, value: &B) -> (r: Result<
        (),
        Error,
    >)
        requires
            old(self).qtype == qtype::DICTIONARY ==> (old(self)@.value is Objects && entries(
                old(self)@,
            ).len() >= 2 && element_storable(entries(old(self)@)[0].qtype, key.element_view())
                && element_storable(entries(old(self)@)[1].qtype, value.element_view())),
        ensures
            old(self).qtype != qtype::DICTIONARY ==> r == Err::<(), Error>(
                invalid_operation_error("push_pair", old(self).qtype, Some(qtype::DICTIONARY)),
            ) && *final(self) == *old(self),
            old(self).qtype == qtype::DICTIONARY ==> ({
                let keys = entries(old(self)@)[0];
                let values = entries(old(self)@)[1];
                if inserted(keys, item_count(keys.value), key.element_view()) is None {
                    r == Err::<(), Error>(push_error(keys.qtype)) && final(self)@ == old(self)@
                } else if inserted(values, item_count(values.value), value.element_view()) is None {
                    r == Err::<(), Error>(push_error(values.qtype)) && final(self)@ == old(self)@
                } else {
                    r == Ok::<(), Error>(()) && final(self)@ == with_entries(
                        old(self)@,
                        after_push(keys, key.element_view()),
                        after_push(values, value.element_view()),
                    )
                }
            }),
    {
        if self.qtype != qtype::DICTIONARY {
            return Err(Error::invalid_operation("push_pair", self.qtype, Some(qtype::DICTIONARY)));
        }
        let ghost k0 = *self;
        proof {
            lemma_compound_model(&k0);
        }
        let r = match &mut self.value {
            KValue::List(KList::Compound(d)) => {
                match d[0].push(key) {
                    Ok(_) => {
                        match d[1].push(value) {
                            Ok(_) => Ok(()),
                            Err(error) => {
                                proof {
                                    lemma_push_then_pop(k0@.value->Objects_0[0], key.element_view());
                                }
                                let _ = d[0].pop();
                                Err(error)
                            },
                        }
                    },
                    Err(error) => Err(error),
                }
            },
            _ => Ok(()),
        };
        proof {
            lemma_compound_model(self);
            assert(models(self.value->List_0->Compound_0@) =~= entries(k0@).update(
                0,
                models(self.value->List_0->Compound_0@)[0],
            ).update(1, models(self.value->List_0->Compound_0@)[1]));
            assert(entries(k0@).update(0, entries(k0@)[0]).update(1, entries(k0@)[1]) =~= entries(
                k0@,
            ));
        }
        r
    }

    /// Take the last key-value pair out of a dictionary. The keys and the values are each
    /// popped; the pair comes back only where both pops succeed.
    pub fn pop_pair(&mut self) -> (r: Result<(K, K), Error>)
        requires
            old(self).qtype == qtype::DICTIONARY ==> (old(self)@.value is Objects && entries(
                old(self)@,
            ).len() >= 2 && q_len(entries(old(self)@)[0]) is Some && q_len(entries(old(self)@)[1])
                is Some && (is_list_type(entries(old(self)@)[0].qtype) ==> entries(
                old(self)@,
            )[0].shaped()) && (is_list_type(entries(old(self)@)[1].qtype) ==> entries(
                old(self)@,
            )[1].shaped())),
        ensures
            old(self).qtype != qtype::DICTIONARY ==> r == Err::<(K, K), Error>(
                invalid_operation_error("pop_pair", old(self).qtype, Some(qtype::DICTIONARY)),
            ) && *final(self) == *old(self),
            old(self).qtype == qtype::DICTIONARY ==> ({
                let keys = entries(old(self)@)[0];
                let values = entries(old(self)@)[1];
                &&& final(self)@ == with_entries(old(self)@, after_pop(keys), after_pop(values))
                &&& (pop_any_result(keys) is Ok && pop_any_result(values) is Ok) ==> (r matches Ok(
                    pair,
                ) && pair.0@ == popped_object(keys) && pair.1@ == popped_object(values))
                &&& !(pop_any_result(keys) is Ok && pop_any_result(values) is Ok) ==> r == Err::<
                    (K, K),
                    Error,
                >(Error::PopFromEmptyList)
            }),
    {
        if self.qtype != qtype::DICTIONARY {
            return Err(Error::invalid_operation("pop_pair", self.qtype, Some(qtype::DICTIONARY)));
        }
        let ghost k0 = *self;
        proof {
            lemma_compound_model(&k0);
        }
        let r = match &mut self.value {
            KValue::List(KList::Compound(d)) => {
                let key = d[0].pop();
                let value = d[1].pop();
                match (key, value) {
                    (Ok(key), Ok(value)) => Ok((key, value)),
                    _ => Err(Error::pop_from_empty_list()),
                }
            },
            _ => Err(Error::pop_from_empty_list()),
        };
        proof {
            lemma_compound_model(self);
            assert(models(self.value->List_0->Compound_0@) =~= entries(k0@).update(
                0,
                models(self.value->List_0->Compound_0@)[0],
            ).update(1, models(self.value->List_0->Compound_0@)[1]));
        }
        r
    }
}

//%% Columns %%//vvvvvvvvvvvvvvvvvvvvvvvvvvvvvvvvvvvvvvvv/

/// Whether `i` is the first index of `name` in `names`.
pub open spec fn is_first_index(names: Seq<Seq<char>>, name: Seq<char>, i: int) -> bool {
    0 <= i < names.len() && names[i] == name && forall|j: int| 0 <= j < i ==> names[j] != name
}

/// Whether `names` holds `name`.
pub open spec fn has_name(names: Seq<Seq<char>>, name: Seq<char>) -> bool {
    exists|i: int| 0 <= i < names.len() && names[i] == name
}

/// The first index of `name` in `names` (meaningful where `names` holds it).
pub open spec fn first_index(names: Seq<Seq<char>>, name: Seq<char>) -> int {
    choose|i: int| is_first_index(names, name, i)
}

/// The column names of the dictionary `d` of a table.
pub open spec fn header_names(d: K) -> Seq<Seq<char>> {
    texts(d.value->List_0->Compound_0@[0].value->List_0->Symbol_0@)
}

/// The columns of the dictionary `d` of a table.
pub open spec fn column_objects(d: K) -> Seq<K> {
    d.value->List_0->Compound_0@[1].value->List_0->Compound_0@
}

/// Whether the column lookup in the dictionary `d` of a table reads only what is there: the
/// names are a symbol list and, where the name is found, the columns a compound list that has
/// the column.
pub open spec fn table_lookup_ready(d: K, name: Seq<char>) -> bool {
    &&& is_vector_type(d.qtype)
    &&& d.value matches KValue::List(KList::Compound(kv))
    &&& kv@.len() >= 1
    &&& is_vector_type(kv@[0].qtype)
    &&& kv@[0].value matches KValue::List(KList::Symbol(_))
    &&& has_name(header_names(d), name) ==> {
        &&& kv@.len() >= 2
        &&& is_vector_type(kv@[1].qtype)
        &&& kv@[1].value matches KValue::List(KList::Compound(columns))
        &&& first_index(header_names(d), name) < columns@.len()
    }
}

/// The column `name` of the table whose dictionary is `d`, if it has one.
pub open spec fn table_column(d: K, name: Seq<char>) -> Option<K> {
    if has_name(header_names(d), name) {
        Some(column_objects(d)[first_index(header_names(d), name)])
    } else {
        None
    }
}

/// The column `name` of a table, or of a keyed table (its key columns first).
pub open spec fn column_lookup(k: K, name: Seq<char>) -> Option<K>
    decreases k,
{
    if k.qtype == qtype::TABLE {
        match k.value {
            KValue::Table(d) => table_column(*d, name),
            _ => None,
        }
    } else if k.qtype == qtype::DICTIONARY {
        match k.value {
            KValue::List(KList::Compound(kv)) => if kv@.len() >= 2 && kv@[0].qtype == qtype::TABLE {
                match column_lookup(kv@[0], name) {
                    Some(c) => Some(c),
                    None => column_lookup(kv@[1], name),
                }
            } else {
                None
            },
            _ => None,
        }
    } else {
        None
    }
}

/// Whether the column lookup in `k` reads only what is there.
pub open spec fn column_lookup_ready(k: K, name: Seq<char>) -> bool
    decreases k,
{
    if k.qtype == qtype::TABLE {
        match k.value {
            KValue::Table(d) => table_lookup_ready(*d, name),
            _ => false,
        }
    } else if k.qtype == qtype::DICTIONARY {
        match k.value {
            KValue::List(KList::Compound(kv)) => kv@.len() >= 1 && (kv@[0].qtype == qtype::TABLE ==> (
            kv@.len() >= 2 && column_lookup_ready(kv@[0], name) && (column_lookup(kv@[0], name) is None
                ==> column_lookup_ready(kv@[1], name)))),
            _ => false,
        }
    } else {
        true
    }
}

/// Whether a dictionary value holds a table as its keys.
pub open spec fn is_keyed_table_value(v: KValue) -> bool {
    v matches KValue::List(KList::Compound(kv)) && kv@[0].qtype == qtype::TABLE
}

/// The error of a column lookup in `k` that finds nothing: a missing column in a table or a
/// keyed table, an invalid operation on anything else.
pub open spec fn column_miss(k: K, name: Seq<char>, operator: &'static str, e: Error) -> bool {
    if k.qtype == qtype::TABLE || (k.qtype == qtype::DICTIONARY && is_keyed_table_value(k.value)) {
        e matches Error::NoSuchColumn(s) && s@ == name
    } else {
        e == invalid_operation_error(operator, k.qtype, None)
    }
}

/// The first index of a name that occurs.
proof fn lemma_first_index(names: Seq<Seq<char>>, name: Seq<char>, i: int)
    requires
        is_first_index(names, name, i),
    ensures
        first_index(names, name) == i,
        has_name(names, name),
{
    let f = first_index(names, name);
    assert(is_first_index(names, name, f));
    if f < i {
        assert(names[f] != name);
    } else if i < f {
        assert(names[i] != name);
    }
}

/// Position of `name` in a vector of strings, the first one.
fn find_name(names: &Vec<String>, name: &str) -> (r: Option<usize>)
    ensures
        match r {
            Some(i) => is_first_index(texts(names@), name@, i as int),
            None => !has_name(texts(names@), name@),
        },
{
    let mut i: usize = 0;
    while i < names.len()
        invariant
            i <= names.len(),
            forall|j: int| 0 <= j < i ==> texts(names@)[j] != name@,
        decreases names.len() - i,
    {
        if str_eq(names[i].as_str(), name) {
            return Some(i);
        }
        i += 1;
    }
    None
}

/// The column `name` of the table whose dictionary is `d`.
fn dictionary_column<'a>(d: &'a K, name: &str) -> (r: Option<&'a K>)
    requires
        table_lookup_ready(*d, name@),
    ensures
        match r {
            Some(c) => table_column(*d, name@) == Some(*c),
            None => table_column(*d, name@) is None,
        },
{
    match &d.value {
        KValue::List(KList::Compound(kv)) => {
            match &kv[0].value {
                KValue::List(KList::Symbol(names)) => {
                    match find_name(names, name) {
                        Some(i) => {
                            proof {
                                lemma_first_index(header_names(*d), name@, i as int);
                            }
                            match &kv[1].value {
                                KValue::List(KList::Compound(columns)) => Some(&columns[i]),
                                _ => None,
                            }
                        },
                        None => None,
                    }
                },
                _ => None,
            }
        },
        _ => None,
    }
}

impl K {
    /// Get a column of a table, or of a keyed table (its key columns first), by its name.
    pub fn get_column(&self, column: &str) -> (r: Result<&K, Error>)
        requires
            column_lookup_ready(*self, column@),
        ensures
            match r {
                Ok(c) => column_lookup(*self, column@) == Some(*c),
                Err(e) => column_lookup(*self, column@) is None && column_miss(
                    *self,
                    column@,
                    "get_column",
                    e,
                ),
            },
        decreases self,
    {
        if self.qtype == qtype::TABLE {
            match &self.value {
                KValue::Table(d) => match dictionary_column(d, column) {
                    Some(c) => Ok(c),
                    None => Err(Error::no_such_column(column.to_string())),
                },
                _ => Err(Error::no_such_column(column.to_string())),
            }
        } else if self.qtype == qtype::DICTIONARY {
            match &self.value {
                KValue::List(KList::Compound(kv)) => {
                    if kv[0].qtype == qtype::TABLE {
                        assert(decreases_to!(*self => kv@[0]));
                        match kv[0].get_column(column) {
                            Ok(c) => Ok(c),
                            Err(_) => {
                                assert(decreases_to!(*self => kv@[1]));
                                match kv[1].get_column(column) {
                                    Ok(c) => Ok(c),
                                    Err(_) => Err(Error::no_such_column(column.to_string())),
                                }
                            },
                        }
                    } else {
                        Err(Error::invalid_operation("get_column", self.qtype, None))
                    }
                },
                _ => Err(Error::invalid_operation("get_column", self.qtype, None)),
            }
        } else {
            Err(Error::invalid_operation("get_column", self.qtype, None))
        }
    }
}

/// `new` is the dictionary `old` of a table with its column at `i` replaced by `c`.
pub open spec fn column_replaced(old: K, new: K, i: int, c: K) -> bool {
    &&& new.qtype == old.qtype
    &&& new.attribute == old.attribute
    &&& old.value matches KValue::List(KList::Compound(kv))
    &&& new.value matches KValue::List(KList::Compound(kv2))
    &&& kv2@.len() == kv@.len()
    &&& forall|j: int| 0 <= j < kv@.len() && j != 1 ==> kv2@[j] == kv@[j]
    &&& kv2@[1].qtype == kv@[1].qtype
    &&& kv2@[1].attribute == kv@[1].attribute
    &&& kv@[1].value matches KValue::List(KList::Compound(columns))
    &&& kv2@[1].value matches KValue::List(KList::Compound(columns2))
    &&& columns2@ == columns@.update(i, c)
}

/// `new` is the table `old` with its column at `i` replaced by `c`.
pub open spec fn table_column_replaced(old: K, new: K, i: int, c: K) -> bool {
    &&& new.qtype == old.qtype
    &&& new.attribute == old.attribute
    &&& old.value matches KValue::Table(d)
    &&& new.value matches KValue::Table(d2)
    &&& column_replaced(*d, *d2, i, c)
}

/// `new` is the keyed table `old` with the column at `i` of its part `part` (0 the key table,
/// 1 the value table) replaced by `c`.
pub open spec fn keyed_column_replaced(old: K, new: K, part: int, i: int, c: K) -> bool {
    &&& new.qtype == old.qtype
    &&& new.attribute == old.attribute
    &&& old.value matches KValue::List(KList::Compound(kv))
    &&& new.value matches KValue::List(KList::Compound(kv2))
    &&& kv2@.len() == kv@.len()
    &&& forall|j: int| 0 <= j < kv@.len() && j != part ==> kv2@[j] == kv@[j]
    &&& table_column_replaced(kv@[part], kv2@[part], i, c)
}

/// Where `get_mut_column` finds the column `name` of `k`: `(part, index)`, with the part 0 for
/// a table itself and, for a keyed table, 0 for its key table and 1 for its value table.
pub open spec fn mutable_column_place(k: K, name: Seq<char>) -> Option<(int, int)> {
    if k.qtype == qtype::TABLE {
        match k.value {
            KValue::Table(d) => if has_name(header_names(*d), name) {
                Some((0, first_index(header_names(*d), name)))
            } else {
                None
            },
            _ => None,
        }
    } else if k.qtype == qtype::DICTIONARY {
        match k.value {
            KValue::List(KList::Compound(kv)) => if kv@[0].qtype == qtype::TABLE {
                let keys = *kv@[0].value->Table_0;
                let values = *kv@[1].value->Table_0;
                if has_name(header_names(keys), name) {
                    Some((0, first_index(header_names(keys), name)))
                } else if has_name(header_names(values), name) {
                    Some((1, first_index(header_names(values), name)))
                } else {
                    None
                }
            } else {
                None
            },
            _ => None,
        }
    } else {
        None
    }
}

/// Whether `get_mut_column` reads only what is there.
pub open spec fn mutable_column_ready(k: K, name: Seq<char>) -> bool {
    if k.qtype == qtype::TABLE {
        match k.value {
            KValue::Table(d) => table_lookup_ready(*d, name),
            _ => false,
        }
    } else if k.qtype == qtype::DICTIONARY {
        match k.value {
            KValue::List(KList::Compound(kv)) => kv@.len() >= 1 && (kv@[0].qtype == qtype::TABLE ==> {
                &&& kv@[0].value is Table
                &&& table_lookup_ready(*kv@[0].value->Table_0, name)
                &&& !has_name(header_names(*kv@[0].value->Table_0), name) ==> {
                    &&& kv@.len() >= 2
                    &&& kv@[1].qtype == qtype::TABLE
                    &&& kv@[1].value is Table
                    &&& table_lookup_ready(*kv@[1].value->Table_0, name)
                }
            }),
            _ => false,
        }
    } else {
        true
    }
}

/// Position of the column `name` in the dictionary `d` of a table.
fn dictionary_column_index(d: &K, name: &str) -> (r: Option<usize>)
    requires
        table_lookup_ready(*d, name@),
    ensures
        match r {
            Some(i) => has_name(header_names(*d), name@) && i == first_index(
                header_names(*d),
                name@,
            ),
            None => !has_name(header_names(*d), name@),
        },
{
    match &d.value {
        KValue::List(KList::Compound(kv)) => {
            match &kv[0].value {
                KValue::List(KList::Symbol(names)) => {
                    let r = find_name(names, name);
                    proof {
                        if let Some(i) = r {
                            lemma_first_index(header_names(*d), name@, i as int);
                        }
                    }
                    r
                },
                _ => None,
            }
        },
        _ => None,
    }
}

/// The column at `i` of the dictionary `d` of a table, to be modified in place.
fn dictionary_column_mut<'a>(d: &'a mut K, i: usize) -> (r: Option<&'a mut K>)
    requires
        old(d).value matches KValue::List(KList::Compound(kv)) && kv@.len() >= 2 && (kv@[1].value
            matches KValue::List(KList::Compound(columns)) && i < columns@.len()),
    ensures
        r matches Some(c) && *c == column_objects(*old(d))[i as int] && column_replaced(
            *old(d),
            *final(d),
            i as int,
            *final(c),
        ),
{
    match &mut d.value {
        KValue::List(KList::Compound(kv)) => {
            match &mut kv[1].value {
                KValue::List(KList::Compound(columns)) => Some(&mut columns[i]),
                _ => None,
            }
        },
        _ => None,
    }
}

impl K {
    /// Get a column of a table, or of a keyed table (its key columns first), by its name, to
    /// be modified in place.
    pub fn get_mut_column(&mut self, column: &str) -> (r: Result<&mut K, Error>)
        requires
            mutable_column_ready(*old(self), column@),
        ensures
            match r {
                Ok(c) => mutable_column_place(*old(self), column@) matches Some(p) && (old(self).qtype
                    == qtype::TABLE ==> (*c == column_objects(*old(self).value->Table_0)[p.1]
                    && table_column_replaced(*old(self), *final(self), p.1, *final(c)))) && (old(
                    self,
                ).qtype != qtype::TABLE ==> (*c == column_objects(
                    *old(self).value->List_0->Compound_0@[p.0].value->Table_0,
                )[p.1] && keyed_column_replaced(*old(self), *final(self), p.0, p.1, *final(c)))),
                Err(e) => mutable_column_place(*old(self), column@) is None && column_miss(
                    *old(self),
                    column@,
                    "get_mut_column",
                    e,
                ) && *final(self) == *old(self),
            },
    {
        if self.qtype == qtype::TABLE {
            let found = match &self.value {
                KValue::Table(d) => dictionary_column_index(d, column),
                _ => None,
            };
            match found {
                Some(i) => match &mut self.value {
                    KValue::Table(d) => match dictionary_column_mut(&mut **d, i) {
                        Some(c) => Ok(c),
                        None => Err(Error::no_such_column(column.to_string())),
                    },
                    _ => Err(Error::no_such_column(column.to_string())),
                },
                None => Err(Error::no_such_column(column.to_string())),
            }
        } else if self.qtype == qtype::DICTIONARY {
            let found: Option<(usize, usize)> = match &self.value {
                KValue::List(KList::Compound(kv)) => {
                    if kv[0].qtype == qtype::TABLE {
                        match &kv[0].value {
                            KValue::Table(keys) => match dictionary_column_index(keys, column) {
                                Some(i) => Some((0, i)),
                                None => match &kv[1].value {
                                    KValue::Table(values) => match dictionary_column_index(
                                        values,
                                        column,
                                    ) {
                                        Some(i) => Some((1, i)),
                                        None => None,
                                    },
                                    _ => None,
                                },
                            },
                            _ => None,
                        }
                    } else {
                        return Err(Error::invalid_operation("get_mut_column", self.qtype, None));
                    }
                },
                _ => {
                    return Err(Error::invalid_operation("get_mut_column", self.qtype, None));
                },
            };
            match found {
                Some((part, i)) => match &mut self.value {
                    KValue::List(KList::Compound(kv)) => match &mut kv[part].value {
                        KValue::Table(d) => match dictionary_column_mut(&mut **d, i) {
                            Some(c) => Ok(c),
                            None => Err(Error::no_such_column(column.to_string())),
                        },
                        _ => Err(Error::no_such_column(column.to_string())),
                    },
                    _ => Err(Error::no_such_column(column.to_string())),
                },
                None => Err(Error::no_such_column(column.to_string())),
            }
        } else {
            Err(Error::invalid_operation("get_mut_column", self.qtype, None))
        }
    }
}

//%% Keyed tables %%//vvvvvvvvvvvvvvvvvvvvvvvvvvvvvvvvvvv/

/// The dictionary of a table model.
pub open spec fn table_dictionary(t: QObject) -> QObject {
    *t.value->Table_0
}

/// The number of key columns that `enkey(n)` makes of the table whose dictionary is `d`: `n`,
/// but at most all the columns but one.
pub open spec fn key_count(d: QObject, n: int) -> int {
    let columns = entries(d)[0].value->Symbols_0.len() as int;
    if columns <= n {
        columns - 1
    } else {
        n
    }
}

/// The keyed table that `enkey(n)` makes of the table `t`: its first columns as the key table,
/// the others as the value table.
pub open spec fn enkeyed(t: QObject, n: int) -> QObject {
    let d = table_dictionary(t);
    let m = key_count(d, n);
    let names = entries(d)[0];
    let columns = entries(d)[1];
    let key_dictionary = with_entries(
        d,
        with_value(names, QValue::Symbols(names.value->Symbols_0.take(m))),
        with_value(columns, QValue::Objects(columns.value->Objects_0.take(m))),
    );
    let value_dictionary = dictionary_of(
        QObject {
            qtype: qtype::SYMBOL_LIST,
            attribute: qattribute::NONE,
            value: QValue::Symbols(names.value->Symbols_0.skip(m)),
        },
        QObject {
            qtype: qtype::COMPOUND_LIST,
            attribute: qattribute::NONE,
            value: QValue::Objects(columns.value->Objects_0.skip(m)),
        },
    );
    dictionary_of(table_of(key_dictionary), table_of(value_dictionary))
}

/// Whether `enkey(n)` of `t` reads only what is there: a table whose dictionary holds a symbol
/// list of names and a compound list of as many columns, at least one key column and one value
/// column, and a first key column as long as the first value column.
pub open spec fn enkeyable(t: QObject, n: int) -> bool {
    t.value is Table ==> {
        let d = table_dictionary(t);
        let names = entries(d)[0];
        let columns = entries(d)[1];
        &&& d.qtype == qtype::DICTIONARY || d.qtype == qtype::SORTED_DICTIONARY
        &&& d.value is Objects
        &&& entries(d).len() >= 2
        &&& names.qtype == qtype::SYMBOL_LIST
        &&& names.value is Symbols
        &&& columns.qtype == qtype::COMPOUND_LIST
        &&& columns.value is Objects
        &&& names.value->Symbols_0.len() == columns.value->Objects_0.len()
        &&& key_count(d, n) >= 1
        &&& list_length(columns.value->Objects_0[0].value) is Some
        &&& list_length(columns.value->Objects_0[0].value) == list_length(
            columns.value->Objects_0[key_count(d, n)].value,
        )
    }
}

impl K {
    /// Make a keyed table of a table: its first `n` columns (at most all but one) become the
    /// key table. Anything that is not a table comes back in `Error::Object`.
    pub fn enkey(self, n: usize) -> (r: Result<K, Error>)
        requires
            enkeyable(self@, n as int),
        ensures
            self@.value is Table ==> (r matches Ok(k) && k@ == enkeyed(self@, n as int)),
            !(self@.value is Table) ==> r == Err::<K, Error>(Error::Object(self)),
    {
        let is_table = match &self.value {
            KValue::Table(_) => true,
            _ => false,
        };
        if !is_table {
            return Err(Error::object(self));
        }
        let ghost t0 = self@;
        let mut dictionary = match self.value {
            KValue::Table(d) => *d,
            _ => K::new_null(),
        };
        proof {
            lemma_compound_model(&dictionary);
        }
        let ghost d0 = dictionary;
        let ghost names0 = d0.value->List_0->Compound_0@[0];
        let ghost columns0 = d0.value->List_0->Compound_0@[1];
        proof {
            lemma_compound_model(&columns0);
        }
        let (m, value_names, value_columns) = match &mut dictionary.value {
            KValue::List(KList::Compound(hc)) => {
                let length = hc[0].len();
                let m = if length <= n {
                    length - 1
                } else {
                    n
                };
                let vn = match &mut hc[0].value {
                    KValue::List(KList::Symbol(v)) => v.split_off(m),
                    _ => Vec::new(),
                };
                let vc = match &mut hc[1].value {
                    KValue::List(KList::Compound(v)) => v.split_off(m),
                    _ => Vec::new(),
                };
                (m, vn, vc)
            },
            _ => (0, Vec::new(), Vec::new()),
        };
        proof {
            lemma_compound_model(&dictionary);
            let hc = dictionary.value->List_0->Compound_0@;
            lemma_compound_model(&hc[1]);
            assert(texts(names0.value->List_0->Symbol_0@).take(m as int) =~= texts(
                hc[0].value->List_0->Symbol_0@,
            ));
            assert(texts(names0.value->List_0->Symbol_0@).skip(m as int) =~= texts(value_names@));
            assert(models(columns0.value->List_0->Compound_0@).take(m as int) =~= models(
                hc[1].value->List_0->Compound_0@,
            ));
            assert(models(columns0.value->List_0->Compound_0@).skip(m as int) =~= models(
                value_columns@,
            ));
            assert(models(hc) =~= entries(d0@).update(0, hc[0]@).update(1, hc[1]@));
        }
        let value_names = K::new_symbol_list(value_names, qattribute::NONE);
        let value_columns = K::new_compound_list(value_columns);
        let value_table = match K::new_dictionary(value_names, value_columns) {
            Ok(d) => match d.flip() {
                Ok(t) => t,
                Err(_) => K::new_null(),
            },
            Err(_) => K::new_null(),
        };
        let key_table = match dictionary.flip() {
            Ok(t) => t,
            Err(_) => K::new_null(),
        };
        K::new_dictionary(key_table, value_table)
    }
}

/// An entry of the key dictionary of a keyed table joined with the same entry of the value
/// dictionary: the names for the first entry, the columns for the others.
pub open spec fn joined_entry(i: int, a: QObject, b: QObject) -> QObject {
    if i == 0 {
        with_value(a, QValue::Symbols(a.value->Symbols_0 + b.value->Symbols_0))
    } else {
        with_value(a, QValue::Objects(a.value->Objects_0 + b.value->Objects_0))
    }
}

/// The entries of `a` with the first `upto` of them joined with those of `b`.
pub open spec fn joined_entries(a: Seq<QObject>, b: Seq<QObject>, upto: int) -> Seq<QObject> {
    Seq::new(a.len(), |i: int| if i < upto { joined_entry(i, a[i], b[i]) } else { a[i] })
}

/// Number of entries that two dictionaries have in common.
pub open spec fn common_length(a: QObject, b: QObject) -> int {
    if entries(a).len() <= entries(b).len() {
        entries(a).len() as int
    } else {
        entries(b).len() as int
    }
}

/// The key dictionary `a` of a keyed table joined with its value dictionary `b`.
pub open spec fn joined(a: QObject, b: QObject) -> QObject {
    with_value(a, QValue::Objects(joined_entries(entries(a), entries(b), common_length(a, b))))
}

/// Whether two dictionaries can be joined: both hold their entries as compound lists, the
/// first common entry is a symbol list in both, the others compound lists.
pub open spec fn joinable(a: QObject, b: QObject) -> bool {
    &&& is_vector_type(a.qtype) && a.value is Objects
    &&& is_vector_type(b.qtype) && b.value is Objects
    &&& forall|i: int| 0 <= i < common_length(a, b) ==> {
        &&& is_vector_type(#[trigger] entries(a)[i].qtype)
        &&& is_vector_type(entries(b)[i].qtype)
        &&& i == 0 ==> (entries(a)[i].value is Symbols && entries(b)[i].value is Symbols)
        &&& i != 0 ==> (entries(a)[i].value is Objects && entries(b)[i].value is Objects)
    }
}

/// The table that `unkey` makes of the keyed table `k`, before it is flipped: its key
/// dictionary joined with its value dictionary.
pub open spec fn unkeyed(k: QObject) -> QObject {
    let kv = entries(k);
    joined(table_dictionary(kv[kv.len() - 2]), table_dictionary(kv[kv.len() - 1]))
}

/// Whether `unkey` of `k` reads only what is there: a dictionary whose last two entries are
/// tables with joinable dictionaries, the joined one with at least two entries.
pub open spec fn unkeyable(k: QObject) -> bool {
    k.qtype == qtype::DICTIONARY ==> {
        let kv = entries(k);
        &&& k.value is Objects
        &&& kv.len() >= 2
        &&& kv[kv.len() - 2].value is Table
        &&& kv[kv.len() - 1].value is Table
        &&& joinable(table_dictionary(kv[kv.len() - 2]), table_dictionary(kv[kv.len() - 1]))
        &&& entries(table_dictionary(kv[kv.len() - 2])).len() >= 2
    }
}

/// Join the dictionary `b` into the dictionary `a`.
fn join_dictionaries(a: &mut K, b: K)
    requires
        joinable(old(a)@, b@),
    ensures
        final(a)@ == joined(old(a)@, b@),
{
    let ghost a0 = old(a)@;
    let ghost b0 = b@;
    let mut b = b;
    proof {
        lemma_compound_model(a);
        lemma_compound_model(&b);
    }
    match &mut a.value {
        KValue::List(KList::Compound(x)) => {
            match &mut b.value {
                KValue::List(KList::Compound(y)) => {
                    let n = if x.len() <= y.len() {
                        x.len()
                    } else {
                        y.len()
                    };
                    let mut i: usize = 0;
                    while i < n
                        invariant
                            n == common_length(a0, b0),
                            i <= n,
                            x@.len() == entries(a0).len(),
                            y@.len() == entries(b0).len(),
                            models(x@) == joined_entries(entries(a0), entries(b0), i as int),
                            forall|j: int| i <= j < y@.len() ==> #[trigger] y@[j]@ == entries(b0)[j],
                            joinable(a0, b0),
                        decreases n - i,
                    {
                        let ghost xi = x@[i as int];
                        let ghost yi = y@[i as int];
                        let ghost x_before = x@;
                        assert(y@[i as int]@ == entries(b0)[i as int]);
                        assert(models(x@)[i as int] == entries(a0)[i as int]);
                        assert(is_vector_type(entries(a0)[i as int].qtype));
                        if i == 0 {
                            let mut names: Vec<String> = Vec::new();
                            match &mut y[i].value {
                                KValue::List(KList::Symbol(v)) => std::mem::swap(&mut names, v),
                                _ => {},
                            }
                            match &mut x[i].value {
                                KValue::List(KList::Symbol(v)) => {
                                    proof {
                                        assert(texts(v@ + names@) =~= texts(v@) + texts(names@));
                                    }
                                    v.append(&mut names);
                                },
                                _ => {},
                            }
                        } else {
                            let mut columns: Vec<K> = Vec::new();
                            proof {
                                lemma_compound_model(&yi);
                                lemma_compound_model(&xi);
                            }
                            match &mut y[i].value {
                                KValue::List(KList::Compound(v)) => std::mem::swap(&mut columns, v),
                                _ => {},
                            }
                            match &mut x[i].value {
                                KValue::List(KList::Compound(v)) => {
                                    proof {
                                        assert(models(v@ + columns@) =~= models(v@) + models(
                                            columns@,
                                        ));
                                    }
                                    v.append(&mut columns);
                                },
                                _ => {},
                            }
                            proof {
                                lemma_compound_model(&x@[i as int]);
                            }
                        }
                        proof {
                            assert(x@ =~= x_before.update(i as int, x@[i as int]));
                            assert(x@[i as int]@ == joined_entry(
                                i as int,
                                entries(a0)[i as int],
                                entries(b0)[i as int],
                            ));
                            assert(models(x@) =~= models(x_before).update(i as int, x@[i as int]@));
                        }
                        i += 1;
                        proof {
                            assert(models(x@) =~= joined_entries(
                                entries(a0),
                                entries(b0),
                                i as int,
                            ));
                        }
                    }
                },
                _ => {},
            }
        },
        _ => {},
    }
    proof {
        lemma_compound_model(a);
    }
}

impl K {
    /// Make a table of a keyed table: the key columns followed by the value columns. Anything
    /// that is not a dictionary comes back in `Error::Object`; a joined dictionary that does
    /// not make a table comes back in `Error::Object` as well.
    pub fn unkey(self) -> (r: Result<K, Error>)
        requires
            unkeyable(self@),
        ensures
            self.qtype != qtype::DICTIONARY ==> r == Err::<K, Error>(Error::Object(self)),
            self.qtype == qtype::DICTIONARY && flippable(unkeyed(self@)) ==> (r matches Ok(t) && t@
                == table_of(unkeyed(self@))),
            self.qtype == qtype::DICTIONARY && !flippable(unkeyed(self@)) ==> (r matches Err(
                Error::Object(o),
            ) && o@ == unkeyed(self@)),
    {
        if self.qtype != qtype::DICTIONARY {
            return Err(Error::object(self));
        }
        let ghost k0 = self@;
        let mut me = self;
        proof {
            lemma_compound_model(&me);
        }
        let (key_table, value_table) = match &mut me.value {
            KValue::List(KList::Compound(kv)) => {
                let value_table = kv.pop();
                let key_table = kv.pop();
                (key_table, value_table)
            },
            _ => (None, None),
        };
        match (key_table, value_table) {
            (Some(key_table), Some(value_table)) => match (key_table.value, value_table.value) {
                (KValue::Table(key_dictionary), KValue::Table(value_dictionary)) => {
                    let mut key_dictionary = *key_dictionary;
                    join_dictionaries(&mut key_dictionary, *value_dictionary);
                    key_dictionary.flip()
                },
                _ => Err(Error::pop_from_empty_list()),
            },
            _ => Err(Error::pop_from_empty_list()),
        }
    }
}

} // verus!
