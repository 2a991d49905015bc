//! Encoding q objects in the q IPC format.

use super::bytes::{push_uint, uint_bytes};
use super::object::{
    is_int_atom_type, is_int_list_type, is_long_atom_type, is_long_list_type, is_vector_type,
    lemma_compound_model, models, texts, K, KList, KValue, QObject, QValue,
};
use crate::qtype;
use vstd::prelude::*;
use vstd::utf8::encode_utf8;

verus! {

//%% Specification of the format %%//vvvvvvvvvvvvvvvvvvv/

/// The items of `s`, each encoded by `f`, one after the other.
pub open spec fn concat_map<T>(s: Seq<T>, f: spec_fn(T) -> Seq<u8>) -> Seq<u8>
    decreases s.len(),
{
    if s.len() == 0 {
        Seq::empty()
    } else {
        concat_map(s.drop_last(), f) + f(s.last())
    }
}

/// The 4-byte length of a list. Lengths beyond `u32::MAX` are truncated, as a cast to `u32` does.
pub open spec fn length_bytes(n: int, encode: u8) -> Seq<u8> {
    uint_bytes((n as u32) as nat, 4, encode)
}

/// A symbol: its UTF-8 bytes ended by a null byte.
pub open spec fn symbol_bytes(s: Seq<char>) -> Seq<u8> {
    encode_utf8(s) + seq![0u8]
}

/// A short.
pub open spec fn short_bytes(x: i16, encode: u8) -> Seq<u8> {
    uint_bytes((x as u16) as nat, 2, encode)
}

/// An int.
pub open spec fn int_bytes(x: i32, encode: u8) -> Seq<u8> {
    uint_bytes((x as u32) as nat, 4, encode)
}

/// A long.
pub open spec fn long_bytes(x: i64, encode: u8) -> Seq<u8> {
    uint_bytes((x as u64) as nat, 8, encode)
}

/// A real, from its bit pattern.
pub open spec fn real_bytes(x: u32, encode: u8) -> Seq<u8> {
    uint_bytes(x as nat, 4, encode)
}

/// A float, from its bit pattern.
pub open spec fn float_bytes(x: u64, encode: u8) -> Seq<u8> {
    uint_bytes(x as nat, 8, encode)
}

/// The header of a list: its type, its attribute and its length.
pub open spec fn list_header(qtype: i8, attribute: i8, n: int, encode: u8) -> Seq<u8> {
    seq![qtype as u8, attribute as u8] + length_bytes(n, encode)
}

/// Elements of a list of fixed-width items.
pub open spec fn items_bytes(v: QValue, encode: u8) -> Seq<u8> {
    match v {
        QValue::Bytes(s) => s,
        QValue::Guids(s) => concat_map(s, |g: [u8; 16]| g@),
        QValue::Shorts(s) => concat_map(s, |x: i16| short_bytes(x, encode)),
        QValue::Ints(s) => concat_map(s, |x: i32| int_bytes(x, encode)),
        QValue::Longs(s) => concat_map(s, |x: i64| long_bytes(x, encode)),
        QValue::Reals(s) => concat_map(s, |x: u32| real_bytes(x, encode)),
        QValue::Floats(s) => concat_map(s, |x: u64| float_bytes(x, encode)),
        QValue::Symbols(s) => concat_map(s, |x: Seq<char>| symbol_bytes(x)),
        _ => Seq::empty(),
    }
}

/// A symbol list as it stands in a table: type `0x0b`, the attribute, the length and the
/// symbols.
pub open spec fn symbol_list_bytes(k: QObject, encode: u8) -> Seq<u8> {
    list_header(qtype::SYMBOL_LIST, k.attribute, k.value->Symbols_0.len() as int, encode)
        + items_bytes(k.value, encode)
}

/// The encoding of a q object in the byte order `encode`.
pub open spec fn encode_q(k: QObject, encode: u8) -> Seq<u8>
    decreases k, 1int,
{
    let t = k.qtype;
    if t == qtype::NULL {
        seq![0x65u8, 0u8]
    } else {
        match k.value {
            QValue::Byte(x) => seq![t as u8, x],
            QValue::Guid(g) => seq![0xfeu8] + g@,
            QValue::Short(x) => seq![0xfbu8] + short_bytes(x, encode),
            QValue::Int(x) => seq![t as u8] + int_bytes(x, encode),
            QValue::Long(x) => seq![t as u8] + long_bytes(x, encode),
            QValue::Real(x) => seq![0xf8u8] + real_bytes(x, encode),
            QValue::Float(x) => seq![t as u8] + float_bytes(x, encode),
            QValue::Text(s) => if t == qtype::SYMBOL_ATOM {
                seq![0xf5u8] + symbol_bytes(s)
            } else {
                list_header(qtype::STRING, k.attribute, encode_utf8(s).len() as int, encode)
                    + encode_utf8(s)
            },
            QValue::Objects(s) => if t == qtype::COMPOUND_LIST {
                list_header(t, k.attribute, s.len() as int, encode) + encode_all(s, encode)
            } else if s.len() >= 2 {
                seq![t as u8] + encode_q(s[0], encode) + encode_q(s[1], encode)
            } else {
                seq![t as u8]
            },
            QValue::Table(d) => match d.value {
                QValue::Objects(kv) => if kv.len() >= 2 {
                    match kv[1].value {
                        QValue::Objects(columns) => seq![0x62u8, 0u8, 0x63u8] + symbol_list_bytes(
                            kv[0],
                            encode,
                        ) + list_header(kv[1].qtype, kv[1].attribute, columns.len() as int, encode)
                            + encode_all(columns, encode),
                        _ => Seq::empty(),
                    }
                } else {
                    Seq::empty()
                },
                _ => Seq::empty(),
            },
            QValue::Null => seq![0x65u8, 0u8],
            QValue::Guids(s) => list_header(qtype::GUID_LIST, k.attribute, s.len() as int, encode)
                + items_bytes(k.value, encode),
            QValue::Shorts(s) => list_header(qtype::SHORT_LIST, k.attribute, s.len() as int, encode)
                + items_bytes(k.value, encode),
            QValue::Reals(s) => list_header(qtype::REAL_LIST, k.attribute, s.len() as int, encode)
                + items_bytes(k.value, encode),
            QValue::Symbols(s) => list_header(
                qtype::SYMBOL_LIST,
                k.attribute,
                s.len() as int,
                encode,
            ) + items_bytes(k.value, encode),
            QValue::Bytes(s) => list_header(t, k.attribute, s.len() as int, encode) + items_bytes(
                k.value,
                encode,
            ),
            QValue::Ints(s) => list_header(t, k.attribute, s.len() as int, encode) + items_bytes(
                k.value,
                encode,
            ),
            QValue::Longs(s) => list_header(t, k.attribute, s.len() as int, encode) + items_bytes(
                k.value,
                encode,
            ),
            QValue::Floats(s) => list_header(t, k.attribute, s.len() as int, encode) + items_bytes(
                k.value,
                encode,
            ),
        }
    }
}

/// The encodings of objects, one after the other.
pub open spec fn encode_all(s: Seq<QObject>, encode: u8) -> Seq<u8>
    decreases s, 0int,
{
    if s.len() == 0 {
        Seq::empty()
    } else {
        encode_all(s.drop_last(), encode) + encode_q(s.last(), encode)
    }
}

/// Whether the serializer handles `k`: an object of a type that q IPC carries (not an error),
/// whose value agrees with its type throughout, a table holding a symbol list of names and a
/// compound list of columns, a dictionary its keys and its values.
pub open spec fn encodable(k: QObject) -> bool
    decreases k, 1int,
{
    let t = k.qtype;
    if t == qtype::NULL {
        true
    } else {
        match k.value {
            QValue::Byte(_) => t == qtype::BOOL_ATOM || t == qtype::BYTE_ATOM || t == qtype::CHAR,
            QValue::Guid(_) => t == qtype::GUID_ATOM,
            QValue::Short(_) => t == qtype::SHORT_ATOM,
            QValue::Int(_) => is_int_atom_type(t),
            QValue::Long(_) => is_long_atom_type(t),
            QValue::Real(_) => t == qtype::REAL_ATOM,
            QValue::Float(_) => t == qtype::FLOAT_ATOM || t == qtype::DATETIME_ATOM,
            QValue::Text(_) => t == qtype::SYMBOL_ATOM || t == qtype::STRING,
            QValue::Bytes(_) => t == qtype::BOOL_LIST || t == qtype::BYTE_LIST,
            QValue::Guids(_) => t == qtype::GUID_LIST,
            QValue::Shorts(_) => t == qtype::SHORT_LIST,
            QValue::Ints(_) => is_int_list_type(t),
            QValue::Longs(_) => is_long_list_type(t),
            QValue::Reals(_) => t == qtype::REAL_LIST,
            QValue::Floats(_) => t == qtype::FLOAT_LIST || t == qtype::DATETIME_LIST,
            QValue::Symbols(_) => t == qtype::SYMBOL_LIST,
            QValue::Objects(s) => if t == qtype::COMPOUND_LIST {
                all_encodable(s)
            } else {
                (t == qtype::DICTIONARY || t == qtype::SORTED_DICTIONARY) && s.len() >= 2
                    && encodable(s[0]) && encodable(s[1])
            },
            QValue::Table(d) => {
                &&& t == qtype::TABLE
                &&& is_vector_type(d.qtype)
                &&& d.value is Objects
                &&& d.value->Objects_0.len() >= 2
                &&& is_vector_type(d.value->Objects_0[0].qtype)
                &&& d.value->Objects_0[0].value is Symbols
                &&& is_vector_type(d.value->Objects_0[1].qtype)
                &&& d.value->Objects_0[1].value is Objects
                &&& all_encodable(d.value->Objects_0[1].value->Objects_0)
            },
            QValue::Null => false,
        }
    }
}

/// Whether all of `s` are encodable.
pub open spec fn all_encodable(s: Seq<QObject>) -> bool
    decreases s, 0int,
{
    if s.len() == 0 {
        true
    } else {
        all_encodable(s.drop_last()) && encodable(s.last())
    }
}

//%% Serializer %%//vvvvvvvvvvvvvvvvvvvvvvvvvvvvvvvvvvvvvv/

/// Append `bytes`.
pub(crate) fn push_all(stream: &mut Vec<u8>, bytes: &[u8])
    ensures
        final(stream)@ == old(stream)@ + bytes@,
{
    let mut i: usize = 0;
    while i < bytes.len()
        invariant
            i <= bytes@.len(),
            stream@ == old(stream)@ + bytes@.subrange(0, i as int),
        decreases bytes@.len() - i,
    {
        stream.push(bytes[i]);
        i += 1;
        proof {
            assert(bytes@.subrange(0, i as int) =~= bytes@.subrange(0, i - 1).push(bytes@[i - 1]));
        }
    }
    proof {
        assert(bytes@.subrange(0, bytes@.len() as int) =~= bytes@);
    }
}

/// Append the header of a list: its type, its attribute and its length.
fn push_list_header(stream: &mut Vec<u8>, qtype: i8, attribute: i8, n: usize, encode: u8)
    ensures
        final(stream)@ == old(stream)@ + list_header(qtype, attribute, n as int, encode),
{
    stream.push(qtype as u8);
    stream.push(attribute as u8);
    push_uint(stream, (n as u32) as u64, 4, encode);
    proof {
        assert(final(stream)@ =~= old(stream)@ + list_header(qtype, attribute, n as int, encode));
    }
}

/// Append the general null.
pub fn serialize_null(stream: &mut Vec<u8>)
    ensures
        final(stream)@ == old(stream)@ + seq![0x65u8, 0u8],
{
    stream.push(0x65);
    stream.push(0x00);
    proof {
        assert(final(stream)@ =~= old(stream)@ + seq![0x65u8, 0u8]);
    }
}

/// Append a symbol and its terminating null byte.
fn push_symbol(stream: &mut Vec<u8>, symbol: &String)
    ensures
        final(stream)@ == old(stream)@ + symbol_bytes(symbol@),
{
    push_all(stream, symbol.as_str().as_bytes());
    stream.push(0x00);
    proof {
        assert(final(stream)@ =~= old(stream)@ + symbol_bytes(symbol@));
    }
}

/// Append the symbols of a symbol list.
fn push_symbols(stream: &mut Vec<u8>, v: &Vec<String>)
    ensures
        final(stream)@ == old(stream)@ + concat_map(texts(v@), |x: Seq<char>| symbol_bytes(x)),
{
    let mut i: usize = 0;
    while i < v.len()
        invariant
            i <= v@.len(),
            stream@ == old(stream)@ + concat_map(
                texts(v@).take(i as int),
                |x: Seq<char>| symbol_bytes(x),
            ),
        decreases v@.len() - i,
    {
        push_symbol(stream, &v[i]);
        i += 1;
        proof {
            assert(texts(v@).take(i as int).drop_last() =~= texts(v@).take(i - 1));
        }
    }
    proof {
        assert(texts(v@).take(v@.len() as int) =~= texts(v@));
    }
}

/// Append the elements of a guid list.
fn push_guids(stream: &mut Vec<u8>, v: &Vec<[u8; 16]>, encode: u8)
    ensures
        final(stream)@ == old(stream)@ + concat_map(v@, |g: [u8; 16]| g@),
{
    let mut i: usize = 0;
    while i < v.len()
        invariant
            i <= v@.len(),
            stream@ == old(stream)@ + concat_map(v@.take(i as int), |g: [u8; 16]| g@),
        decreases v@.len() - i,
    {
        push_all(stream, &v[i]);
        i += 1;
        proof {
            assert(v@.take(i as int).drop_last() =~= v@.take(i - 1));
        }
    }
    proof {
        assert(v@.take(v@.len() as int) =~= v@);
    }
}

/// Append the elements of a short list.
fn push_shorts(stream: &mut Vec<u8>, v: &Vec<i16>, encode: u8)
    ensures
        final(stream)@ == old(stream)@ + concat_map(v@, |x: i16| short_bytes(x, encode)),
{
    let mut i: usize = 0;
    while i < v.len()
        invariant
            i <= v@.len(),
            stream@ == old(stream)@ + concat_map(v@.take(i as int), |x: i16| short_bytes(x, encode)),
        decreases v@.len() - i,
    {
        push_uint(stream, (v[i] as u16) as u64, 2, encode);
        i += 1;
        proof {
            assert(v@.take(i as int).drop_last() =~= v@.take(i - 1));
        }
    }
    proof {
        assert(v@.take(v@.len() as int) =~= v@);
    }
}

/// Append the elements of a int list.
fn push_ints(stream: &mut Vec<u8>, v: &Vec<i32>, encode: u8)
    ensures
        final(stream)@ == old(stream)@ + concat_map(v@, |x: i32| int_bytes(x, encode)),
{
    let mut i: usize = 0;
    while i < v.len()
        invariant
            i <= v@.len(),
            stream@ == old(stream)@ + concat_map(v@.take(i as int), |x: i32| int_bytes(x, encode)),
        decreases v@.len() - i,
    {
        push_uint(stream, (v[i] as u32) as u64, 4, encode);
        i += 1;
        proof {
            assert(v@.take(i as int).drop_last() =~= v@.take(i - 1));
        }
    }
    proof {
        assert(v@.take(v@.len() as int) =~= v@);
    }
}

/// Append the elements of a long list.
fn push_longs(stream: &mut Vec<u8>, v: &Vec<i64>, encode: u8)
    ensures
        final(stream)@ == old(stream)@ + concat_map(v@, |x: i64| long_bytes(x, encode)),
{
    let mut i: usize = 0;
    while i < v.len()
        invariant
            i <= v@.len(),
            stream@ == old(stream)@ + concat_map(v@.take(i as int), |x: i64| long_bytes(x, encode)),
        decreases v@.len() - i,
    {
        push_uint(stream, v[i] as u64, 8, encode);
        i += 1;
        proof {
            assert(v@.take(i as int).drop_last() =~= v@.take(i - 1));
        }
    }
    proof {
        assert(v@.take(v@.len() as int) =~= v@);
    }
}

/// Append the elements of a real list.
fn push_reals(stream: &mut Vec<u8>, v: &Vec<u32>, encode: u8)
    ensures
        final(stream)@ == old(stream)@ + concat_map(v@, |x: u32| real_bytes(x, encode)),
{
    let mut i: usize = 0;
    while i < v.len()
        invariant
            i <= v@.len(),
            stream@ == old(stream)@ + concat_map(v@.take(i as int), |x: u32| real_bytes(x, encode)),
        decreases v@.len() - i,
    {
        push_uint(stream, v[i] as u64, 4, encode);
        i += 1;
        proof {
            assert(v@.take(i as int).drop_last() =~= v@.take(i - 1));
        }
    }
    proof {
        assert(v@.take(v@.len() as int) =~= v@);
    }
}

/// Append the elements of a float list.
fn push_floats(stream: &mut Vec<u8>, v: &Vec<u64>, encode: u8)
    ensures
        final(stream)@ == old(stream)@ + concat_map(v@, |x: u64| float_bytes(x, encode)),
{
    let mut i: usize = 0;
    while i < v.len()
        invariant
            i <= v@.len(),
            stream@ == old(stream)@ + concat_map(v@.take(i as int), |x: u64| float_bytes(x, encode)),
        decreases v@.len() - i,
    {
        push_uint(stream, v[i], 8, encode);
        i += 1;
        proof {
            assert(v@.take(i as int).drop_last() =~= v@.take(i - 1));
        }
    }
    proof {
        assert(v@.take(v@.len() as int) =~= v@);
    }
}


/// Append a GUID.
fn push_guid(stream: &mut Vec<u8>, g: &[u8; 16])
    ensures
        final(stream)@ == old(stream)@ + g@,
{
    let mut i: usize = 0;
    while i < 16
        invariant
            i <= 16,
            g@.len() == 16,
            stream@ == old(stream)@ + g@.subrange(0, i as int),
        decreases 16 - i,
    {
        stream.push(g[i]);
        i += 1;
        proof {
            assert(g@.subrange(0, i as int) =~= g@.subrange(0, i - 1).push(g@[i - 1]));
        }
    }
    proof {
        assert(g@.subrange(0, 16) =~= g@);
    }
}

/// Each object of an encodable sequence is encodable.
pub proof fn lemma_all_encodable(s: Seq<QObject>, i: int)
    requires
        all_encodable(s),
        0 <= i < s.len(),
    ensures
        encodable(s[i]),
    decreases s.len(),
{
    if i < s.len() - 1 {
        lemma_all_encodable(s.drop_last(), i);
    }
}

/// Append the encodings of objects, one after the other.
fn serialize_all(v: &Vec<K>, stream: &mut Vec<u8>, encode: u8)
    requires
        all_encodable(models(v@)),
    ensures
        final(stream)@ == old(stream)@ + encode_all(models(v@), encode),
    decreases v@, 0int,
{
    let mut i: usize = 0;
    while i < v.len()
        invariant
            i <= v@.len(),
            all_encodable(models(v@)),
            stream@ == old(stream)@ + encode_all(models(v@).take(i as int), encode),
        decreases v@.len() - i,
    {
        proof {
            lemma_all_encodable(models(v@), i as int);
            assert(decreases_to!(v@ => v@[i as int]));
        }
        serialize_q(&v[i], stream, encode);
        i += 1;
        proof {
            assert(models(v@).take(i as int).drop_last() =~= models(v@).take(i - 1));
        }
    }
    proof {
        assert(models(v@).take(v@.len() as int) =~= models(v@));
    }
}

/// Append the encoding of a q object in the byte order `encode`.
pub(crate) fn serialize_q(obj: &K, stream: &mut Vec<u8>, encode: u8)
    requires
        encodable(obj@),
    ensures
        final(stream)@ == old(stream)@ + encode_q(obj@, encode),
    decreases obj, 1int,
{
    let t = obj.qtype;
    if t == qtype::NULL {
        serialize_null(stream);
        return;
    }
    let ghost s0 = stream@;
    proof {
        if obj@.value is Objects {
            lemma_compound_model(obj);
        }
    }
    match &obj.value {
        KValue::Byte(x) => {
            stream.push(t as u8);
            stream.push(*x);
            proof {
                assert(stream@ =~= s0 + encode_q(obj@, encode));
            }
        },
        KValue::Guid(g) => {
            stream.push(0xfe);
            push_guid(stream, g);
            proof {
                assert(stream@ =~= s0 + encode_q(obj@, encode));
            }
        },
        KValue::Short(x) => {
            stream.push(0xfb);
            push_uint(stream, (*x as u16) as u64, 2, encode);
            proof {
                assert(stream@ =~= s0 + encode_q(obj@, encode));
            }
        },
        KValue::Int(x) => {
            stream.push(t as u8);
            push_uint(stream, (*x as u32) as u64, 4, encode);
            proof {
                assert(stream@ =~= s0 + encode_q(obj@, encode));
            }
        },
        KValue::Long(x) => {
            stream.push(t as u8);
            push_uint(stream, *x as u64, 8, encode);
            proof {
                assert(stream@ =~= s0 + encode_q(obj@, encode));
            }
        },
        KValue::Real(x) => {
            stream.push(0xf8);
            push_uint(stream, *x as u64, 4, encode);
            proof {
                assert(stream@ =~= s0 + encode_q(obj@, encode));
            }
        },
        KValue::Float(x) => {
            stream.push(t as u8);
            push_uint(stream, *x, 8, encode);
            proof {
                assert(stream@ =~= s0 + encode_q(obj@, encode));
            }
        },
        KValue::Symbol(s) => {
            if t == qtype::SYMBOL_ATOM {
                stream.push(0xf5);
                push_symbol(stream, s);
            } else {
                let b = s.as_str().as_bytes();
                push_list_header(stream, qtype::STRING, obj.attribute, b.len(), encode);
                push_all(stream, b);
            }
            proof {
                assert(stream@ =~= s0 + encode_q(obj@, encode));
            }
        },
        KValue::Table(d) => {
            stream.push(0x62);
            stream.push(0x00);
            stream.push(0x63);
            proof {
                lemma_compound_model(&**d);
            }
            match &d.value {
                KValue::List(KList::Compound(kv)) => {
                    match &kv[0].value {
                        KValue::List(KList::Symbol(h)) => {
                            push_list_header(stream, qtype::SYMBOL_LIST, kv[0].attribute, h.len(), encode);
                            push_symbols(stream, h);
                        },
                        _ => {},
                    }
                    proof {
                        lemma_compound_model(&kv@[1]);
                    }
                    match &kv[1].value {
                        KValue::List(KList::Compound(c)) => {
                            push_list_header(stream, kv[1].qtype, kv[1].attribute, c.len(), encode);
                            assert(decreases_to!(obj => c@));
                            serialize_all(c, stream, encode);
                        },
                        _ => {},
                    }
                },
                _ => {},
            }
            proof {
                assert(stream@ =~= s0 + encode_q(obj@, encode));
            }
        },
        KValue::List(KList::Compound(v)) => {
            if t == qtype::COMPOUND_LIST {
                push_list_header(stream, t, obj.attribute, v.len(), encode);
                assert(decreases_to!(obj => v@));
                serialize_all(v, stream, encode);
            } else {
                stream.push(t as u8);
                assert(decreases_to!(obj => v@[0]));
                serialize_q(&v[0], stream, encode);
                assert(decreases_to!(obj => v@[1]));
                serialize_q(&v[1], stream, encode);
            }
            proof {
                assert(stream@ =~= s0 + encode_q(obj@, encode));
            }
        },
        KValue::List(KList::Byte(v)) => {
            push_list_header(stream, t, obj.attribute, v.len(), encode);
            push_all(stream, v.as_slice());
            proof {
                assert(stream@ =~= s0 + encode_q(obj@, encode));
            }
        },
        KValue::List(KList::Guid(v)) => {
            push_list_header(stream, qtype::GUID_LIST, obj.attribute, v.len(), encode);
            push_guids(stream, v, encode);
            proof {
                assert(stream@ =~= s0 + encode_q(obj@, encode));
            }
        },
        KValue::List(KList::Short(v)) => {
            push_list_header(stream, qtype::SHORT_LIST, obj.attribute, v.len(), encode);
            push_shorts(stream, v, encode);
            proof {
                assert(stream@ =~= s0 + encode_q(obj@, encode));
            }
        },
        KValue::List(KList::Int(v)) => {
            push_list_header(stream, t, obj.attribute, v.len(), encode);
            push_ints(stream, v, encode);
            proof {
                assert(stream@ =~= s0 + encode_q(obj@, encode));
            }
        },
        KValue::List(KList::Long(v)) => {
            push_list_header(stream, t, obj.attribute, v.len(), encode);
            push_longs(stream, v, encode);
            proof {
                assert(stream@ =~= s0 + encode_q(obj@, encode));
            }
        },
        KValue::List(KList::Real(v)) => {
            push_list_header(stream, qtype::REAL_LIST, obj.attribute, v.len(), encode);
            push_reals(stream, v, encode);
            proof {
                assert(stream@ =~= s0 + encode_q(obj@, encode));
            }
        },
        KValue::List(KList::Float(v)) => {
            push_list_header(stream, t, obj.attribute, v.len(), encode);
            push_floats(stream, v, encode);
            proof {
                assert(stream@ =~= s0 + encode_q(obj@, encode));
            }
        },
        KValue::List(KList::Symbol(v)) => {
            push_list_header(stream, qtype::SYMBOL_LIST, obj.attribute, v.len(), encode);
            push_symbols(stream, v);
            proof {
                assert(stream@ =~= s0 + encode_q(obj@, encode));
            }
        },
        KValue::Null => {},
    }
}

impl K {
    /// The encoding of the object in the q IPC format, in the byte order `encoding`.
    pub(crate) fn q_ipc_encode(&self, encoding: u8) -> (r: Vec<u8>)
        requires
            encodable(self@),
        ensures
            r@ == encode_q(self@, encoding),
    {
        let mut stream: Vec<u8> = Vec::new();
        serialize_q(self, &mut stream, encoding);
        proof {
            assert(stream@ =~= encode_q(self@, encoding));
        }
        stream
    }
}

} // verus!
