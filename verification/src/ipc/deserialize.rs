//! Decoding q objects from the q IPC format.

use super::bytes::{read_uint, uint_at};
use super::list::q_len;
use super::object::{atom, bool_byte, lemma_compound_model, models, texts, K, KList, KValue, QObject, QValue};
use super::table::dictionary_of;
use crate::{qattribute, qtype};
use vstd::prelude::*;
use vstd::utf8::{decode_utf8, valid_utf8};

verus! {

//%% Specification of the format %%//vvvvvvvvvvvvvvvvvvv/

/// The GUID whose bytes are `s` (16 of them).
pub open spec fn guid_of(s: Seq<u8>) -> [u8; 16] {
    choose|g: [u8; 16]| g@ == s
}

/// The position of the first null byte of `b` at or after `from`, if there is one.
#[verifier::opaque]
pub open spec fn first_null(b: Seq<u8>, from: int) -> Option<int> {
    if exists|j: int| from <= j < b.len() && b[j] == 0 {
        Some(choose|j: int| from <= j < b.len() && b[j] == 0 && forall|i: int| from <= i < j ==> b[i] != 0)
    } else {
        None
    }
}

/// Text from UTF-8 bytes, if they are valid.
pub open spec fn text_of(b: Seq<u8>) -> Option<Seq<char>> {
    if valid_utf8(b) {
        Some(decode_utf8(b))
    } else {
        None
    }
}

/// A null-terminated symbol at `cursor`: its text and the position after its null byte.
pub open spec fn decode_symbol(b: Seq<u8>, cursor: int) -> Option<(Seq<char>, int)> {
    match first_null(b, cursor) {
        Some(j) => match text_of(b.subrange(cursor, j)) {
            Some(s) => Some((s, j + 1)),
            None => None,
        },
        None => None,
    }
}

/// `n` null-terminated symbols from `cursor`.
pub open spec fn decode_symbols(b: Seq<u8>, cursor: int, n: nat) -> Option<(Seq<Seq<char>>, int)>
    decreases n,
{
    if n == 0 {
        Some((Seq::empty(), cursor))
    } else {
        match decode_symbol(b, cursor) {
            Some((s, c)) => match decode_symbols(b, c, (n - 1) as nat) {
                Some((rest, c2)) => Some((seq![s] + rest, c2)),
                None => None,
            },
            None => None,
        }
    }
}

/// The attribute and the length of a list whose header is at `cursor`, and the position of
/// its elements.
pub open spec fn attribute_and_size(b: Seq<u8>, cursor: int, encode: u8) -> (i8, int, int) {
    (b[cursor] as i8, uint_at(b, cursor + 1, 4, encode) as int, cursor + 5)
}

/// `n` items of `width` bytes from `at`, each read by `f` from its position.
pub open spec fn fixed_items<T>(n: int, at: int, width: int, f: spec_fn(int) -> T) -> Seq<T> {
    Seq::new(n as nat, |i: int| f(at + width * i))
}

/// A short at `at`.
pub open spec fn short_at(b: Seq<u8>, at: int, encode: u8) -> i16 {
    (uint_at(b, at, 2, encode) as u16) as i16
}

/// An int at `at`.
pub open spec fn int_at(b: Seq<u8>, at: int, encode: u8) -> i32 {
    (uint_at(b, at, 4, encode) as u32) as i32
}

/// A long at `at`.
pub open spec fn long_at(b: Seq<u8>, at: int, encode: u8) -> i64 {
    (uint_at(b, at, 8, encode) as u64) as i64
}

/// The list of fixed-width items of the type `t` (a type whose items have `width` bytes) at
/// `at`: `n` items.
pub open spec fn fixed_list(b: Seq<u8>, t: i8, n: int, at: int, encode: u8) -> QValue {
    if t == qtype::BOOL_LIST || t == qtype::BYTE_LIST {
        QValue::Bytes(b.subrange(at, at + n))
    } else if t == qtype::GUID_LIST {
        QValue::Guids(fixed_items(n, at, 16, |p: int| guid_of(b.subrange(p, p + 16))))
    } else if t == qtype::SHORT_LIST {
        QValue::Shorts(fixed_items(n, at, 2, |p: int| short_at(b, p, encode)))
    } else if t == qtype::INT_LIST || t == qtype::MONTH_LIST || t == qtype::DATE_LIST || t
        == qtype::MINUTE_LIST || t == qtype::SECOND_LIST || t == qtype::TIME_LIST {
        QValue::Ints(fixed_items(n, at, 4, |p: int| int_at(b, p, encode)))
    } else if t == qtype::LONG_LIST || t == qtype::TIMESTAMP_LIST || t == qtype::TIMESPAN_LIST {
        QValue::Longs(fixed_items(n, at, 8, |p: int| long_at(b, p, encode)))
    } else if t == qtype::REAL_LIST {
        QValue::Reals(fixed_items(n, at, 4, |p: int| uint_at(b, p, 4, encode) as u32))
    } else {
        QValue::Floats(fixed_items(n, at, 8, |p: int| uint_at(b, p, 8, encode) as u64))
    }
}

/// Width in bytes of the items of the list type `t` that holds fixed-width items, 0 for other
/// types.
pub open spec fn item_width(t: i8) -> int {
    if t == qtype::BOOL_LIST || t == qtype::BYTE_LIST {
        1
    } else if t == qtype::GUID_LIST {
        16
    } else if t == qtype::SHORT_LIST {
        2
    } else if t == qtype::INT_LIST || t == qtype::MONTH_LIST || t == qtype::DATE_LIST || t
        == qtype::MINUTE_LIST || t == qtype::SECOND_LIST || t == qtype::TIME_LIST || t
        == qtype::REAL_LIST {
        4
    } else if t == qtype::LONG_LIST || t == qtype::TIMESTAMP_LIST || t == qtype::TIMESPAN_LIST || t
        == qtype::FLOAT_LIST || t == qtype::DATETIME_LIST {
        8
    } else {
        0
    }
}

/// Width in bytes of the value of an atom of the type `t` that has a fixed width, 0 for other
/// types.
pub open spec fn atom_width(t: i8) -> int {
    if t == qtype::BOOL_ATOM || t == qtype::BYTE_ATOM || t == qtype::CHAR {
        1
    } else if t == qtype::GUID_ATOM {
        16
    } else if t == qtype::SHORT_ATOM {
        2
    } else if t == qtype::INT_ATOM || t == qtype::MONTH_ATOM || t == qtype::DATE_ATOM || t
        == qtype::MINUTE_ATOM || t == qtype::SECOND_ATOM || t == qtype::TIME_ATOM || t
        == qtype::REAL_ATOM {
        4
    } else if t == qtype::LONG_ATOM || t == qtype::TIMESTAMP_ATOM || t == qtype::TIMESPAN_ATOM
        || t == qtype::FLOAT_ATOM || t == qtype::DATETIME_ATOM {
        8
    } else {
        0
    }
}

/// The value of the atom of the type `t` (of a fixed width) at `at`. A bool is normalised to
/// 0 or 1.
pub open spec fn atom_value(b: Seq<u8>, t: i8, at: int, encode: u8) -> QValue {
    if t == qtype::BOOL_ATOM {
        QValue::Byte(bool_byte(b[at] != 0))
    } else if t == qtype::BYTE_ATOM || t == qtype::CHAR {
        QValue::Byte(b[at])
    } else if t == qtype::GUID_ATOM {
        QValue::Guid(guid_of(b.subrange(at, at + 16)))
    } else if t == qtype::SHORT_ATOM {
        QValue::Short(short_at(b, at, encode))
    } else if t == qtype::REAL_ATOM {
        QValue::Real(uint_at(b, at, 4, encode) as u32)
    } else if atom_width(t) == 4 {
        QValue::Int(int_at(b, at, encode))
    } else if t == qtype::FLOAT_ATOM || t == qtype::DATETIME_ATOM {
        QValue::Float(uint_at(b, at, 8, encode) as u64)
    } else {
        QValue::Long(long_at(b, at, encode))
    }
}

/// The dictionary that the decoder builds of `keys` and `values`, where their lengths agree.
pub open spec fn decoded_dictionary(keys: QObject, values: QObject) -> Option<QObject> {
    if q_len(keys) is Some && q_len(keys) == q_len(values) {
        Some(dictionary_of(keys, values))
    } else {
        None
    }
}

/// An atom of a fixed width at `cursor` (its type byte).
pub open spec fn decode_atom(b: Seq<u8>, cursor: int, encode: u8) -> Option<(QObject, int)> {
    let t = b[cursor] as i8;
    let c = cursor + 1;
    if c + atom_width(t) <= b.len() {
        Some((atom(t, atom_value(b, t, c, encode)), c + atom_width(t)))
    } else {
        None
    }
}

/// A symbol or an error at `cursor` (its type byte).
pub open spec fn decode_text_atom(b: Seq<u8>, cursor: int) -> Option<(QObject, int)> {
    let t = b[cursor] as i8;
    match decode_symbol(b, cursor + 1) {
        Some((s, c2)) => Some((atom(t, QValue::Text(s)), c2)),
        None => None,
    }
}

/// A list of fixed-width items, a string or a symbol list at `cursor` (its type byte).
pub open spec fn decode_simple_list(b: Seq<u8>, cursor: int, encode: u8) -> Option<(QObject, int)> {
    let t = b[cursor] as i8;
    let c = cursor + 1;
    if c + 5 <= b.len() {
        let (attribute, n, at) = attribute_and_size(b, c, encode);
        if t == qtype::SYMBOL_LIST {
            match decode_symbols(b, at, n as nat) {
                Some((s, c2)) => Some((QObject { qtype: t, attribute, value: QValue::Symbols(s) }, c2)),
                None => None,
            }
        } else if t == qtype::STRING {
            if at + n <= b.len() {
                match text_of(b.subrange(at, at + n)) {
                    Some(s) => Some((QObject { qtype: t, attribute, value: QValue::Text(s) }, at + n)),
                    None => None,
                }
            } else {
                None
            }
        } else if at + item_width(t) * n <= b.len() {
            Some(
                (
                    QObject { qtype: t, attribute, value: fixed_list(b, t, n, at, encode) },
                    at + item_width(t) * n,
                ),
            )
        } else {
            None
        }
    } else {
        None
    }
}

/// A compound list at `cursor` (its type byte). Its attribute is not kept.
pub open spec fn decode_compound(b: Seq<u8>, cursor: int, encode: u8) -> Option<(QObject, int)>
    decreases b.len() - cursor, 1int,
{
    let c = cursor + 1;
    if 0 <= cursor && c + 5 <= b.len() {
        let (_, n, at) = attribute_and_size(b, c, encode);
        match decode_all(b, at, n as nat, encode) {
            Some((s, c2)) => Some(
                (
                    QObject {
                        qtype: qtype::COMPOUND_LIST,
                        attribute: qattribute::NONE,
                        value: QValue::Objects(s),
                    },
                    c2,
                ),
            ),
            None => None,
        }
    } else {
        None
    }
}

/// A table at `cursor` (its type byte): the bytes of its attribute, of the dictionary type and
/// of the symbol list type are skipped, as is the type of the compound list of columns.
pub open spec fn decode_table(b: Seq<u8>, cursor: int, encode: u8) -> Option<(QObject, int)>
    decreases b.len() - cursor, 1int,
{
    let h = cursor + 4;
    if 0 <= cursor && h + 5 <= b.len() {
        let (attribute, n, at) = attribute_and_size(b, h, encode);
        match decode_symbols(b, at, n as nat) {
            Some((names, c2)) => {
                let c3 = c2 + 1;
                if cursor < c3 && c3 + 5 <= b.len() {
                    let (_, m, at2) = attribute_and_size(b, c3, encode);
                    match decode_all(b, at2, m as nat, encode) {
                        Some((columns, c4)) => {
                            let keys = QObject {
                                qtype: qtype::SYMBOL_LIST,
                                attribute,
                                value: QValue::Symbols(names),
                            };
                            let values = QObject {
                                qtype: qtype::COMPOUND_LIST,
                                attribute: qattribute::NONE,
                                value: QValue::Objects(columns),
                            };
                            match decoded_dictionary(keys, values) {
                                Some(d) => Some(
                                    (
                                        QObject {
                                            qtype: qtype::TABLE,
                                            attribute: qattribute::NONE,
                                            value: QValue::Table(Box::new(d)),
                                        },
                                        c4,
                                    ),
                                ),
                                None => None,
                            }
                        },
                        None => None,
                    }
                } else {
                    None
                }
            },
            None => None,
        }
    } else {
        None
    }
}

/// A dictionary at `cursor` (its type byte): its keys, then its values. The type (sorted or
/// not) comes from the attribute of the keys.
pub open spec fn decode_dictionary(b: Seq<u8>, cursor: int, encode: u8) -> Option<(QObject, int)>
    decreases b.len() - cursor, 1int,
{
    if 0 <= cursor < b.len() {
        match decode_q(b, cursor + 1, encode) {
            Some((keys, c2)) => if cursor < c2 && c2 <= b.len() {
                match decode_q(b, c2, encode) {
                    Some((values, c3)) => match decoded_dictionary(keys, values) {
                        Some(d) => Some((d, c3)),
                        None => None,
                    },
                    None => None,
                }
            } else {
                None
            },
            None => None,
        }
    } else {
        None
    }
}

/// Decoding of the object at `cursor` of `b` in the byte order `encode`: the object and the
/// position after it, or `None` where the bytes do not hold an object that the decoder reads
/// (an unknown type, bytes missing, text that is not UTF-8, a dictionary whose keys and values
/// differ in length).
pub open spec fn decode_q(b: Seq<u8>, cursor: int, encode: u8) -> Option<(QObject, int)>
    decreases b.len() - cursor, 2int,
{
    if cursor < 0 || cursor >= b.len() {
        None
    } else {
        let t = b[cursor] as i8;
        if atom_width(t) > 0 {
            decode_atom(b, cursor, encode)
        } else if t == qtype::SYMBOL_ATOM || t == qtype::ERROR {
            decode_text_atom(b, cursor)
        } else if t == qtype::NULL {
            Some((atom(qtype::NULL, QValue::Null), cursor + 2))
        } else if t == qtype::COMPOUND_LIST {
            decode_compound(b, cursor, encode)
        } else if item_width(t) > 0 || t == qtype::STRING || t == qtype::SYMBOL_LIST {
            decode_simple_list(b, cursor, encode)
        } else if t == qtype::TABLE {
            decode_table(b, cursor, encode)
        } else if t == qtype::DICTIONARY || t == qtype::SORTED_DICTIONARY {
            decode_dictionary(b, cursor, encode)
        } else {
            None
        }
    }
}

/// Decoding of `n` objects, one after the other, from `cursor`.
pub open spec fn decode_all(b: Seq<u8>, cursor: int, n: nat, encode: u8) -> Option<
    (Seq<QObject>, int),
>
    decreases b.len() - cursor, 3int, n,
{
    if n == 0 {
        Some((Seq::empty(), cursor))
    } else if cursor < 0 || cursor >= b.len() {
        None
    } else {
        match decode_q(b, cursor, encode) {
            Some((o, c)) => if n == 1 {
                Some((seq![o], c))
            } else if cursor < c && c <= b.len() {
                match decode_all(b, c, (n - 1) as nat, encode) {
                    Some((rest, c2)) => Some((seq![o] + rest, c2)),
                    None => None,
                }
            } else {
                None
            },
            None => None,
        }
    }
}

//%% Decoder %%//vvvvvvvvvvvvvvvvvvvvvvvvvvvvvvvvvvvvvvvv/

/// `String::from_utf8`: the string of UTF-8 bytes, `None` where they are not valid UTF-8.
#[verifier::external_body]
fn string_from_utf8(v: Vec<u8>) -> (r: Option<String>)
    ensures
        match r {
            Some(s) => valid_utf8(v@) && s@ == decode_utf8(v@),
            None => !valid_utf8(v@),
        },
{
    String::from_utf8(v).ok()
}

/// The GUID of the bytes of a GUID.
pub proof fn lemma_guid_of(g: [u8; 16])
    ensures
        guid_of(g@) == g,
{
    let h = guid_of(g@);
    assert(h@ == g@);
    assert forall|i: int| 0 <= i < 16 implies h[i] == g[i] by {
        assert(h@[i] == g@[i]);
    }
    assert(h =~= g);
}

/// The bytes of `bytes` from `from` to `to`.
fn copy_range(bytes: &[u8], from: usize, to: usize) -> (r: Vec<u8>)
    requires
        from <= to <= bytes@.len(),
    ensures
        r@ == bytes@.subrange(from as int, to as int),
{
    let mut r: Vec<u8> = Vec::new();
    let mut i: usize = from;
    while i < to
        invariant
            from <= i <= to,
            to <= bytes@.len(),
            r@ == bytes@.subrange(from as int, i as int),
        decreases to - i,
    {
        r.push(bytes[i]);
        i += 1;
        proof {
            assert(r@ =~= bytes@.subrange(from as int, i as int));
        }
    }
    r
}

/// The GUID at `at`.
fn read_guid(bytes: &[u8], at: usize) -> (r: [u8; 16])
    requires
        at + 16 <= bytes@.len(),
    ensures
        r == guid_of(bytes@.subrange(at as int, at + 16)),
{
    let length = bytes.len();
    let mut g: [u8; 16] = [0u8; 16];
    let mut i: usize = 0;
    while i < 16
        invariant
            i <= 16,
            at + 16 <= bytes@.len(),
            length == bytes@.len(),
            forall|j: int| 0 <= j < i ==> g@[j] == bytes@[at + j],
        decreases 16 - i,
    {
        g[i] = bytes[at + i];
        i += 1;
    }
    proof {
        assert(g@ =~= bytes@.subrange(at as int, at + 16));
        lemma_guid_of(g);
    }
    g
}

/// The position of the first null byte at or after `from`.
fn find_null(bytes: &[u8], from: usize) -> (r: Option<usize>)
    ensures
        match r {
            Some(j) => first_null(bytes@, from as int) == Some(j as int) && from <= j < bytes@.len(),
            None => first_null(bytes@, from as int) is None,
        },
{
    reveal(first_null);
    let mut j: usize = from;
    while j < bytes.len()
        invariant
            from <= j,
            forall|i: int| from <= i < j ==> bytes@[i] != 0,
        decreases bytes@.len() - j,
    {
        if bytes[j] == 0 {
            proof {
                reveal(first_null);
                let c = choose|k: int| from <= k < bytes@.len() && bytes@[k] == 0 && forall|i: int|
                    from <= i < k ==> bytes@[i] != 0;
                assert(from <= c < bytes@.len() && bytes@[c] == 0 && forall|i: int|
                    from <= i < c ==> bytes@[i] != 0);
                if c < j {
                    assert(bytes@[c] != 0);
                } else if j < c {
                    assert(bytes@[j as int] != 0);
                }
            }
            return Some(j);
        }
        j += 1;
    }
    None
}

/// A null-terminated symbol at `cursor`.
fn read_symbol(bytes: &[u8], cursor: usize) -> (r: Option<(String, usize)>)
    ensures
        match r {
            Some((s, c)) => decode_symbol(bytes@, cursor as int) == Some((s@, c as int)) && cursor
                < c <= bytes@.len(),
            None => decode_symbol(bytes@, cursor as int) is None,
        },
{
    let length = bytes.len();
    match find_null(bytes, cursor) {
        Some(j) => {
            let v = copy_range(bytes, cursor, j);
            match string_from_utf8(v) {
                Some(s) => Some((s, j + 1)),
                None => None,
            }
        },
        None => None,
    }
}

/// Read the attribute and the length of a list whose header is at `cursor`; also gives the
/// position of the elements.
pub fn get_attribute_and_size(bytes: &[u8], cursor: usize, encode: u8) -> (r: (i8, usize, usize))
    requires
        cursor + 5 <= bytes@.len(),
    ensures
        r.0 == attribute_and_size(bytes@, cursor as int, encode).0,
        r.1 == attribute_and_size(bytes@, cursor as int, encode).1,
        r.2 == attribute_and_size(bytes@, cursor as int, encode).2,
        r.1 <= u32::MAX,
{
    let length = bytes.len();
    let size = read_uint(bytes, cursor + 1, 4, encode);
    proof {
        super::bytes::lemma_le_value_bound(super::bytes::in_order(bytes@.subrange(cursor + 1, cursor + 5), encode));
        super::bytes::lemma_pow256_values();
    }
    (bytes[cursor] as i8, size as usize, cursor + 5)
}


/// `n` guids from `at`.
fn read_guids(bytes: &[u8], n: usize, at: usize, encode: u8) -> (r: Vec<[u8; 16]>)
    requires
        at + 16 * n <= bytes@.len(),
    ensures
        r@ == fixed_items(n as int, at as int, 16, |p: int| guid_of(bytes@.subrange(p, p + 16))),
{
    let length = bytes.len();
    let mut r: Vec<[u8; 16]> = Vec::new();
    let mut i: usize = 0;
    let mut p: usize = at;
    while i < n
        invariant
            i <= n,
            p == at + 16 * i,
            at + 16 * n <= bytes@.len(),
            length == bytes@.len(),
            r@ == Seq::new(i as nat, |j: int| guid_of(bytes@.subrange(at + 16 * j, at + 16 * j + 16))),
        decreases n - i,
    {
        r.push(read_guid(bytes, p));
        i += 1;
        p += 16;
        proof {
            assert(r@ =~= Seq::new(i as nat, |j: int| guid_of(bytes@.subrange(at + 16 * j, at + 16 * j + 16))));
        }
    }
    proof {
        assert(r@ =~= fixed_items(n as int, at as int, 16, |p: int| guid_of(bytes@.subrange(p, p + 16))));
    }
    r
}

/// `n` shorts from `at`.
fn read_shorts(bytes: &[u8], n: usize, at: usize, encode: u8) -> (r: Vec<i16>)
    requires
        at + 2 * n <= bytes@.len(),
    ensures
        r@ == fixed_items(n as int, at as int, 2, |p: int| short_at(bytes@, p, encode)),
{
    let length = bytes.len();
    let mut r: Vec<i16> = Vec::new();
    let mut i: usize = 0;
    let mut p: usize = at;
    while i < n
        invariant
            i <= n,
            p == at + 2 * i,
            at + 2 * n <= bytes@.len(),
            length == bytes@.len(),
            r@ == Seq::new(i as nat, |j: int| short_at(bytes@, at + 2 * j, encode)),
        decreases n - i,
    {
        r.push((read_uint(bytes, p, 2, encode) as u16) as i16);
        i += 1;
        p += 2;
        proof {
            assert(r@ =~= Seq::new(i as nat, |j: int| short_at(bytes@, at + 2 * j, encode)));
        }
    }
    proof {
        assert(r@ =~= fixed_items(n as int, at as int, 2, |p: int| short_at(bytes@, p, encode)));
    }
    r
}

/// `n` ints from `at`.
fn read_ints(bytes: &[u8], n: usize, at: usize, encode: u8) -> (r: Vec<i32>)
    requires
        at + 4 * n <= bytes@.len(),
    ensures
        r@ == fixed_items(n as int, at as int, 4, |p: int| int_at(bytes@, p, encode)),
{
    let length = bytes.len();
    let mut r: Vec<i32> = Vec::new();
    let mut i: usize = 0;
    let mut p: usize = at;
    while i < n
        invariant
            i <= n,
            p == at + 4 * i,
            at + 4 * n <= bytes@.len(),
            length == bytes@.len(),
            r@ == Seq::new(i as nat, |j: int| int_at(bytes@, at + 4 * j, encode)),
        decreases n - i,
    {
        r.push((read_uint(bytes, p, 4, encode) as u32) as i32);
        i += 1;
        p += 4;
        proof {
            assert(r@ =~= Seq::new(i as nat, |j: int| int_at(bytes@, at + 4 * j, encode)));
        }
    }
    proof {
        assert(r@ =~= fixed_items(n as int, at as int, 4, |p: int| int_at(bytes@, p, encode)));
    }
    r
}

/// `n` longs from `at`.
fn read_longs(bytes: &[u8], n: usize, at: usize, encode: u8) -> (r: Vec<i64>)
    requires
        at + 8 * n <= bytes@.len(),
    ensures
        r@ == fixed_items(n as int, at as int, 8, |p: int| long_at(bytes@, p, encode)),
{
    let length = bytes.len();
    let mut r: Vec<i64> = Vec::new();
    let mut i: usize = 0;
    let mut p: usize = at;
    while i < n
        invariant
            i <= n,
            p == at + 8 * i,
            at + 8 * n <= bytes@.len(),
            length == bytes@.len(),
            r@ == Seq::new(i as nat, |j: int| long_at(bytes@, at + 8 * j, encode)),
        decreases n - i,
    {
        r.push(read_uint(bytes, p, 8, encode) as i64);
        i += 1;
        p += 8;
        proof {
            assert(r@ =~= Seq::new(i as nat, |j: int| long_at(bytes@, at + 8 * j, encode)));
        }
    }
    proof {
        assert(r@ =~= fixed_items(n as int, at as int, 8, |p: int| long_at(bytes@, p, encode)));
    }
    r
}

/// `n` reals from `at`.
fn read_reals(bytes: &[u8], n: usize, at: usize, encode: u8) -> (r: Vec<u32>)
    requires
        at + 4 * n <= bytes@.len(),
    ensures
        r@ == fixed_items(n as int, at as int, 4, |p: int| uint_at(bytes@, p, 4, encode) as u32),
{
    let length = bytes.len();
    let mut r: Vec<u32> = Vec::new();
    let mut i: usize = 0;
    let mut p: usize = at;
    while i < n
        invariant
            i <= n,
            p == at + 4 * i,
            at + 4 * n <= bytes@.len(),
            length == bytes@.len(),
            r@ == Seq::new(i as nat, |j: int| uint_at(bytes@, at + 4 * j, 4, encode) as u32),
        decreases n - i,
    {
        r.push(read_uint(bytes, p, 4, encode) as u32);
        i += 1;
        p += 4;
        proof {
            assert(r@ =~= Seq::new(i as nat, |j: int| uint_at(bytes@, at + 4 * j, 4, encode) as u32));
        }
    }
    proof {
        assert(r@ =~= fixed_items(n as int, at as int, 4, |p: int| uint_at(bytes@, p, 4, encode) as u32));
    }
    r
}

/// `n` floats from `at`.
fn read_floats(bytes: &[u8], n: usize, at: usize, encode: u8) -> (r: Vec<u64>)
    requires
        at + 8 * n <= bytes@.len(),
    ensures
        r@ == fixed_items(n as int, at as int, 8, |p: int| uint_at(bytes@, p, 8, encode) as u64),
{
    let length = bytes.len();
    let mut r: Vec<u64> = Vec::new();
    let mut i: usize = 0;
    let mut p: usize = at;
    while i < n
        invariant
            i <= n,
            p == at + 8 * i,
            at + 8 * n <= bytes@.len(),
            length == bytes@.len(),
            r@ == Seq::new(i as nat, |j: int| uint_at(bytes@, at + 8 * j, 8, encode) as u64),
        decreases n - i,
    {
        r.push(read_uint(bytes, p, 8, encode));
        i += 1;
        p += 8;
        proof {
            assert(r@ =~= Seq::new(i as nat, |j: int| uint_at(bytes@, at + 8 * j, 8, encode) as u64));
        }
    }
    proof {
        assert(r@ =~= fixed_items(n as int, at as int, 8, |p: int| uint_at(bytes@, p, 8, encode) as u64));
    }
    r
}

/// `n` null-terminated symbols from `cursor`.
fn read_symbols(bytes: &[u8], cursor: usize, n: usize) -> (r: Option<(Vec<String>, usize)>)
    ensures
        match r {
            Some((v, c)) => decode_symbols(bytes@, cursor as int, n as nat) == Some(
                (texts(v@), c as int),
            ) && cursor <= c && (n > 0 ==> c <= bytes@.len()),
            None => decode_symbols(bytes@, cursor as int, n as nat) is None,
        },
{
    let mut v: Vec<String> = Vec::new();
    let mut c: usize = cursor;
    let mut i: usize = 0;
    while i < n
        invariant
            i <= n,
            cursor <= c,
            i > 0 ==> c <= bytes@.len(),
            decode_symbols(bytes@, cursor as int, n as nat) == match decode_symbols(
                bytes@,
                c as int,
                (n - i) as nat,
            ) {
                Some((rest, c2)) => Some((texts(v@) + rest, c2)),
                None => None,
            },
        decreases n - i,
    {
        match read_symbol(bytes, c) {
            Some((s, c2)) => {
                proof {
                    assert(texts(v@.push(s)) =~= texts(v@).push(s@));
                    let next = decode_symbols(bytes@, c2 as int, (n - i - 1) as nat);
                    if let Some((rest, c3)) = next {
                        assert(texts(v@) + (seq![s@] + rest) =~= texts(v@).push(s@) + rest);
                    }
                }
                v.push(s);
                c = c2;
                i += 1;
            },
            None => {
                return None;
            },
        }
    }
    proof {
        assert(texts(v@) + Seq::<Seq<char>>::empty() =~= texts(v@));
    }
    Some((v, c))
}


/// Width of the atoms of the type `t` that have a fixed width, 0 for other types.
fn atom_width_exec(t: i8) -> (r: usize)
    ensures
        r == atom_width(t),
{
    if t == qtype::BOOL_ATOM || t == qtype::BYTE_ATOM || t == qtype::CHAR {
        1
    } else if t == qtype::GUID_ATOM {
        16
    } else if t == qtype::SHORT_ATOM {
        2
    } else if t == qtype::INT_ATOM || t == qtype::MONTH_ATOM || t == qtype::DATE_ATOM || t
        == qtype::MINUTE_ATOM || t == qtype::SECOND_ATOM || t == qtype::TIME_ATOM || t
        == qtype::REAL_ATOM {
        4
    } else if t == qtype::LONG_ATOM || t == qtype::TIMESTAMP_ATOM || t == qtype::TIMESPAN_ATOM
        || t == qtype::FLOAT_ATOM || t == qtype::DATETIME_ATOM {
        8
    } else {
        0
    }
}

/// Width of the items of the list type `t` that holds fixed-width items, 0 for other types.
fn item_width_exec(t: i8) -> (r: usize)
    ensures
        r == item_width(t),
{
    if t == qtype::BOOL_LIST || t == qtype::BYTE_LIST {
        1
    } else if t == qtype::GUID_LIST {
        16
    } else if t == qtype::SHORT_LIST {
        2
    } else if t == qtype::INT_LIST || t == qtype::MONTH_LIST || t == qtype::DATE_LIST || t
        == qtype::MINUTE_LIST || t == qtype::SECOND_LIST || t == qtype::TIME_LIST || t
        == qtype::REAL_LIST {
        4
    } else if t == qtype::LONG_LIST || t == qtype::TIMESTAMP_LIST || t == qtype::TIMESPAN_LIST || t
        == qtype::FLOAT_LIST || t == qtype::DATETIME_LIST {
        8
    } else {
        0
    }
}

/// The value of the atom of the type `t` (of a fixed width) at `at`.
fn read_atom_value(bytes: &[u8], t: i8, at: usize, encode: u8) -> (r: KValue)
    requires
        atom_width(t) > 0,
        at + atom_width(t) <= bytes@.len(),
    ensures
        (K { qtype: t, attribute: qattribute::NONE, value: r })@ == atom(
            t,
            atom_value(bytes@, t, at as int, encode),
        ),
{
    if t == qtype::BOOL_ATOM {
        KValue::Byte(
            if bytes[at] != 0 {
                1
            } else {
                0
            },
        )
    } else if t == qtype::BYTE_ATOM || t == qtype::CHAR {
        KValue::Byte(bytes[at])
    } else if t == qtype::GUID_ATOM {
        KValue::Guid(read_guid(bytes, at))
    } else if t == qtype::SHORT_ATOM {
        KValue::Short((read_uint(bytes, at, 2, encode) as u16) as i16)
    } else if t == qtype::REAL_ATOM {
        KValue::Real(read_uint(bytes, at, 4, encode) as u32)
    } else if atom_width_exec(t) == 4 {
        KValue::Int((read_uint(bytes, at, 4, encode) as u32) as i32)
    } else if t == qtype::FLOAT_ATOM || t == qtype::DATETIME_ATOM {
        KValue::Float(read_uint(bytes, at, 8, encode))
    } else {
        KValue::Long(read_uint(bytes, at, 8, encode) as i64)
    }
}

/// The list of fixed-width items of the type `t` at `at`: `n` items.
fn read_fixed_list(bytes: &[u8], t: i8, n: usize, at: usize, encode: u8) -> (r: KValue)
    requires
        item_width(t) > 0,
        at + item_width(t) * n <= bytes@.len(),
    ensures
        (K { qtype: t, attribute: 0, value: r })@.value == fixed_list(
            bytes@,
            t,
            n as int,
            at as int,
            encode,
        ),
{
    let length = bytes.len();
    if t == qtype::BOOL_LIST || t == qtype::BYTE_LIST {
        KValue::List(KList::Byte(copy_range(bytes, at, at + n)))
    } else if t == qtype::GUID_LIST {
        KValue::List(KList::Guid(read_guids(bytes, n, at, encode)))
    } else if t == qtype::SHORT_LIST {
        KValue::List(KList::Short(read_shorts(bytes, n, at, encode)))
    } else if t == qtype::REAL_LIST {
        KValue::List(KList::Real(read_reals(bytes, n, at, encode)))
    } else if item_width_exec(t) == 4 {
        KValue::List(KList::Int(read_ints(bytes, n, at, encode)))
    } else if t == qtype::FLOAT_LIST || t == qtype::DATETIME_LIST {
        KValue::List(KList::Float(read_floats(bytes, n, at, encode)))
    } else {
        KValue::List(KList::Long(read_longs(bytes, n, at, encode)))
    }
}

/// The dictionary of `keys` and `values` where their lengths agree.
fn build_dictionary(keys: K, values: K) -> (r: Option<K>)
    ensures
        match r {
            Some(d) => decoded_dictionary(keys@, values@) == Some(d@),
            None => decoded_dictionary(keys@, values@) is None,
        },
{
    match (super::list::length_of(&keys), super::list::length_of(&values)) {
        (Some(n), Some(m)) => {
            if n == m {
                match K::new_dictionary(keys, values) {
                    Ok(d) => Some(d),
                    Err(_) => None,
                }
            } else {
                None
            }
        },
        _ => None,
    }
}

/// `n * w <= room` exactly when `n <= room / w`.
proof fn lemma_fits_room(n: int, w: int, room: int)
    requires
        w > 0,
        n >= 0,
        room >= 0,
    ensures
        (n <= room / w) == (w * n <= room),
{
    assert((n <= room / w) == (w * n <= room)) by (nonlinear_arith)
        requires
            w > 0,
            n >= 0,
            room >= 0,
    ;
}

/// Decode an atom of a fixed width at `cursor`.
fn deserialize_atom(bytes: &[u8], cursor: usize, encode: u8) -> (r: Option<(K, usize)>)
    requires
        cursor < bytes@.len() < usize::MAX,
        atom_width(bytes@[cursor as int] as i8) > 0,
    ensures
        match r {
            Some((k, c)) => decode_atom(bytes@, cursor as int, encode) == Some((k@, c as int)),
            None => decode_atom(bytes@, cursor as int, encode) is None,
        },
{
    let length = bytes.len();
    let t = bytes[cursor] as i8;
    let c = cursor + 1;
    let w = atom_width_exec(t);
    if w <= length - c {
        let value = read_atom_value(bytes, t, c, encode);
        Some((K::new(t, qattribute::NONE, value), c + w))
    } else {
        None
    }
}

/// Decode a symbol or an error at `cursor`.
fn deserialize_text_atom(bytes: &[u8], cursor: usize) -> (r: Option<(K, usize)>)
    requires
        cursor < bytes@.len() < usize::MAX,
    ensures
        match r {
            Some((k, c)) => decode_text_atom(bytes@, cursor as int) == Some((k@, c as int)),
            None => decode_text_atom(bytes@, cursor as int) is None,
        },
{
    let t = bytes[cursor] as i8;
    match read_symbol(bytes, cursor + 1) {
        Some((s, c2)) => Some((K::new(t, qattribute::NONE, KValue::Symbol(s)), c2)),
        None => None,
    }
}

/// Decode a list of fixed-width items, a string or a symbol list at `cursor`.
fn deserialize_simple_list(bytes: &[u8], cursor: usize, encode: u8) -> (r: Option<(K, usize)>)
    requires
        cursor < bytes@.len() < usize::MAX,
        ({
            let t = bytes@[cursor as int] as i8;
            item_width(t) > 0 || t == qtype::STRING || t == qtype::SYMBOL_LIST
        }),
    ensures
        match r {
            Some((k, c)) => decode_simple_list(bytes@, cursor as int, encode) == Some((k@, c as int)),
            None => decode_simple_list(bytes@, cursor as int, encode) is None,
        },
{
    let length = bytes.len();
    let t = bytes[cursor] as i8;
    let c = cursor + 1;
    if c >= length || 5 > length - c {
        return None;
    }
    let (attribute, n, at) = get_attribute_and_size(bytes, c, encode);
    if t == qtype::SYMBOL_LIST {
        match read_symbols(bytes, at, n) {
            Some((v, c2)) => Some((K::new(t, attribute, KValue::List(KList::Symbol(v))), c2)),
            None => None,
        }
    } else if t == qtype::STRING {
        if n <= length - at {
            let v = copy_range(bytes, at, at + n);
            match string_from_utf8(v) {
                Some(s) => Some((K::new(t, attribute, KValue::Symbol(s)), at + n)),
                None => None,
            }
        } else {
            None
        }
    } else {
        let iw = item_width_exec(t);
        proof {
            lemma_fits_room(n as int, iw as int, (length - at) as int);
        }
        if n <= (length - at) / iw {
            let value = read_fixed_list(bytes, t, n, at, encode);
            Some((K::new(t, attribute, value), at + iw * n))
        } else {
            None
        }
    }
}

/// Decode a compound list at `cursor`.
fn deserialize_compound(bytes: &[u8], cursor: usize, encode: u8) -> (r: Option<(K, usize)>)
    requires
        cursor < bytes@.len() < usize::MAX,
    ensures
        match r {
            Some((k, c)) => decode_compound(bytes@, cursor as int, encode) == Some((k@, c as int)),
            None => decode_compound(bytes@, cursor as int, encode) is None,
        },
    decreases bytes@.len() - cursor, 1int,
{
    let length = bytes.len();
    let c = cursor + 1;
    if c >= length || 5 > length - c {
        return None;
    }
    let (_, n, at) = get_attribute_and_size(bytes, c, encode);
    match deserialize_all(bytes, at, n, encode) {
        Some((v, c2)) => {
            let k = K::new(qtype::COMPOUND_LIST, qattribute::NONE, KValue::List(KList::Compound(v)));
            proof {
                lemma_compound_model(&k);
            }
            Some((k, c2))
        },
        None => None,
    }
}

/// Decode a table at `cursor`.
#[verifier::rlimit(40)]
fn deserialize_table(bytes: &[u8], cursor: usize, encode: u8) -> (r: Option<(K, usize)>)
    requires
        cursor < bytes@.len() < usize::MAX,
    ensures
        match r {
            Some((k, c)) => decode_table(bytes@, cursor as int, encode) == Some((k@, c as int)),
            None => decode_table(bytes@, cursor as int, encode) is None,
        },
    decreases bytes@.len() - cursor, 1int,
{
    let length = bytes.len();
    if 9 > length - cursor {
        return None;
    }
    let h = cursor + 4;
    let (attribute, n, at) = get_attribute_and_size(bytes, h, encode);
    match read_symbols(bytes, at, n) {
        Some((names, c2)) => {
            if c2 >= length || 6 > length - c2 {
                return None;
            }
            let c3 = c2 + 1;
            let (_, m, at2) = get_attribute_and_size(bytes, c3, encode);
            match deserialize_all(bytes, at2, m, encode) {
                Some((columns, c4)) => {
                    let keys = K::new(qtype::SYMBOL_LIST, attribute, KValue::List(KList::Symbol(names)));
                    let values = K::new(
                        qtype::COMPOUND_LIST,
                        qattribute::NONE,
                        KValue::List(KList::Compound(columns)),
                    );
                    proof {
                        lemma_compound_model(&values);
                    }
                    match build_dictionary(keys, values) {
                        Some(d) => Some(
                            (K::new(qtype::TABLE, qattribute::NONE, KValue::Table(Box::new(d))), c4),
                        ),
                        None => None,
                    }
                },
                None => None,
            }
        },
        None => None,
    }
}

/// Decode a dictionary at `cursor`.
fn deserialize_dictionary(bytes: &[u8], cursor: usize, encode: u8) -> (r: Option<(K, usize)>)
    requires
        cursor < bytes@.len() < usize::MAX,
    ensures
        match r {
            Some((k, c)) => decode_dictionary(bytes@, cursor as int, encode) == Some((k@, c as int)),
            None => decode_dictionary(bytes@, cursor as int, encode) is None,
        },
    decreases bytes@.len() - cursor, 1int,
{
    let length = bytes.len();
    match deserialize_bytes(bytes, cursor + 1, encode) {
        Some((keys, c2)) => {
            if cursor < c2 && c2 <= length {
                match deserialize_bytes(bytes, c2, encode) {
                    Some((values, c3)) => match build_dictionary(keys, values) {
                        Some(d) => Some((d, c3)),
                        None => None,
                    },
                    None => None,
                }
            } else {
                None
            }
        },
        None => None,
    }
}

/// Decode the object at `cursor` of `bytes` in the byte order `encode`: the object and the
/// position after it.
pub(crate) fn deserialize_bytes(bytes: &[u8], cursor: usize, encode: u8) -> (r: Option<(K, usize)>)
    requires
        bytes@.len() < usize::MAX,
    ensures
        match r {
            Some((k, c)) => decode_q(bytes@, cursor as int, encode) == Some((k@, c as int)),
            None => decode_q(bytes@, cursor as int, encode) is None,
        },
    decreases bytes@.len() - cursor, 2int,
{
    let length = bytes.len();
    if cursor >= length {
        return None;
    }
    let t = bytes[cursor] as i8;
    if atom_width_exec(t) > 0 {
        deserialize_atom(bytes, cursor, encode)
    } else if t == qtype::SYMBOL_ATOM || t == qtype::ERROR {
        deserialize_text_atom(bytes, cursor)
    } else if t == qtype::NULL {
        Some((K::new_null(), cursor + 2))
    } else if t == qtype::COMPOUND_LIST {
        deserialize_compound(bytes, cursor, encode)
    } else if item_width_exec(t) > 0 || t == qtype::STRING || t == qtype::SYMBOL_LIST {
        deserialize_simple_list(bytes, cursor, encode)
    } else if t == qtype::TABLE {
        deserialize_table(bytes, cursor, encode)
    } else if t == qtype::DICTIONARY || t == qtype::SORTED_DICTIONARY {
        deserialize_dictionary(bytes, cursor, encode)
    } else {
        None
    }
}

/// Decode `n` objects, one after the other, from `cursor`.
fn deserialize_all(bytes: &[u8], cursor: usize, n: usize, encode: u8) -> (r: Option<(Vec<K>, usize)>)
    requires
        bytes@.len() < usize::MAX,
    ensures
        match r {
            Some((v, c)) => decode_all(bytes@, cursor as int, n as nat, encode) == Some(
                (models(v@), c as int),
            ),
            None => decode_all(bytes@, cursor as int, n as nat, encode) is None,
        },
    decreases bytes@.len() - cursor, 3int, n,
{
    let length = bytes.len();
    let mut v: Vec<K> = Vec::new();
    let mut c: usize = cursor;
    let mut i: usize = 0;
    while i < n
        invariant
            i <= n,
            cursor <= c,
            bytes@.len() < usize::MAX,
            length == bytes@.len(),
            decode_all(bytes@, cursor as int, n as nat, encode) == match decode_all(
                bytes@,
                c as int,
                (n - i) as nat,
                encode,
            ) {
                Some((rest, c2)) => Some((models(v@) + rest, c2)),
                None => None,
            },
        decreases n - i,
    {
        if c >= length {
            return None;
        }
        match deserialize_bytes(bytes, c, encode) {
            Some((o, c1)) => {
                proof {
                    assert(models(v@.push(o)) =~= models(v@).push(o@));
                }
                if n - i == 1 {
                    proof {
                        assert(models(v@) + seq![o@] =~= models(v@).push(o@));
                    }
                    v.push(o);
                    return Some((v, c1));
                } else if c < c1 && c1 <= length {
                    proof {
                        let next = decode_all(bytes@, c1 as int, (n - i - 1) as nat, encode);
                        if let Some((rest, c3)) = next {
                            assert(models(v@) + (seq![o@] + rest) =~= models(v@).push(o@) + rest);
                        }
                    }
                    v.push(o);
                    c = c1;
                    i += 1;
                } else {
                    return None;
                }
            },
            None => {
                return None;
            },
        }
    }
    proof {
        assert(models(v@) + Seq::<QObject>::empty() =~= models(v@));
    }
    Some((v, c))
}

impl K {
    /// Decode a q object from the bytes of a message body in the byte order `encode`.
    pub(crate) fn q_ipc_decode(bytes: &[u8], encode: u8) -> (r: Option<K>)
        requires
            bytes@.len() < usize::MAX,
        ensures
            match r {
                Some(k) => decode_q(bytes@, 0, encode) matches Some(p) && k@ == p.0,
                None => decode_q(bytes@, 0, encode) is None,
            },
    {
        match deserialize_bytes(bytes, 0, encode) {
            Some((k, _)) => Some(k),
            None => None,
        }
    }
}

} // verus!
