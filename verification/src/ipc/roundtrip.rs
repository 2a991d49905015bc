//! Decoding what the serializer encodes gives the object back.

use super::bytes::{
    in_order, le_bytes, lemma_pow256_values, lemma_uint_roundtrip, uint_at, uint_bytes,
};
use super::deserialize::{
    atom_value, atom_width, attribute_and_size, decode_all, decode_atom, decode_compound,
    decode_dictionary, decode_q, decode_simple_list, decode_symbol, decode_symbols, decode_table,
    decode_text_atom, decoded_dictionary, first_null, fixed_items, fixed_list, guid_of, int_at,
    item_width, long_at, short_at, text_of,
};
use super::list::q_len;
use super::object::{atom, bool_byte, QObject, QValue};
use super::serialize::{
    concat_map, encode_all, encode_q, float_bytes, int_bytes, items_bytes, length_bytes, list_header,
    long_bytes, real_bytes, short_bytes, symbol_bytes, symbol_list_bytes,
};
use super::table::{dictionary_of, dictionary_type, entries};
use crate::{qattribute, qtype};
use vstd::prelude::*;
use vstd::utf8::{decode_utf8, encode_utf8, valid_utf8};

verus! {

//%% Objects that come back %%//vvvvvvvvvvvvvvvvvvvvvvvv/

/// Whether a text holds no null character (the terminator of a symbol).
pub open spec fn no_null_char(s: Seq<char>) -> bool {
    forall|i: int| 0 <= i < s.len() ==> (s[i] as u32) != 0
}

/// Whether the symbols of `s` hold no null character.
pub open spec fn no_null_chars(s: Seq<Seq<char>>) -> bool {
    forall|i: int| 0 <= i < s.len() ==> no_null_char(#[trigger] s[i])
}

/// Whether the decoder gives `k` back from its encoding: what the format does not carry has
/// its default (no attribute on atoms, compound lists, dictionaries and tables; a bool atom is
/// 0 or 1), symbols hold no null character, lengths fit 4 bytes, the type of a dictionary
/// follows the attribute of its keys and its keys and values are as long, and a table is a
/// dictionary of a symbol list of names and a compound list of as many columns.
pub open spec fn round_trips(k: QObject) -> bool
    decreases k, 1int,
{
    let t = k.qtype;
    if t == qtype::NULL {
        k.attribute == qattribute::NONE && k.value is Null
    } else {
        match k.value {
            QValue::Byte(x) => k.attribute == qattribute::NONE && (t == qtype::BOOL_ATOM ==> x <= 1),
            QValue::Guid(_) => k.attribute == qattribute::NONE,
            QValue::Short(_) => k.attribute == qattribute::NONE,
            QValue::Int(_) => k.attribute == qattribute::NONE,
            QValue::Long(_) => k.attribute == qattribute::NONE,
            QValue::Real(_) => k.attribute == qattribute::NONE,
            QValue::Float(_) => k.attribute == qattribute::NONE,
            QValue::Text(s) => if t == qtype::SYMBOL_ATOM {
                k.attribute == qattribute::NONE && no_null_char(s)
            } else {
                encode_utf8(s).len() <= u32::MAX
            },
            QValue::Bytes(s) => s.len() <= u32::MAX,
            QValue::Guids(s) => s.len() <= u32::MAX,
            QValue::Shorts(s) => s.len() <= u32::MAX,
            QValue::Ints(s) => s.len() <= u32::MAX,
            QValue::Longs(s) => s.len() <= u32::MAX,
            QValue::Reals(s) => s.len() <= u32::MAX,
            QValue::Floats(s) => s.len() <= u32::MAX,
            QValue::Symbols(s) => s.len() <= u32::MAX && no_null_chars(s),
            QValue::Objects(s) => if t == qtype::COMPOUND_LIST {
                k.attribute == qattribute::NONE && s.len() <= u32::MAX && all_round_trip(s)
            } else {
                &&& k.attribute == qattribute::NONE
                &&& s.len() == 2
                &&& t == dictionary_type(s[0])
                &&& round_trips(s[0])
                &&& round_trips(s[1])
                &&& q_len(s[0]) is Some
                &&& q_len(s[0]) == q_len(s[1])
            },
            QValue::Table(d) => match d.value {
                QValue::Objects(kv) => if kv.len() == 2 {
                    match (kv[0].value, kv[1].value) {
                        (QValue::Symbols(names), QValue::Objects(columns)) => {
                            &&& k.attribute == qattribute::NONE
                            &&& d.attribute == qattribute::NONE
                            &&& d.qtype == dictionary_type(kv[0])
                            &&& kv[0].qtype == qtype::SYMBOL_LIST
                            &&& kv[1].qtype == qtype::COMPOUND_LIST
                            &&& kv[1].attribute == qattribute::NONE
                            &&& names.len() == columns.len()
                            &&& names.len() <= u32::MAX
                            &&& no_null_chars(names)
                            &&& all_round_trip(columns)
                        },
                        _ => false,
                    }
                } else {
                    false
                },
                _ => false,
            },
            QValue::Null => false,
        }
    }
}

/// Whether all of `s` come back from their encodings.
pub open spec fn all_round_trip(s: Seq<QObject>) -> bool
    decreases s, 0int,
{
    if s.len() == 0 {
        true
    } else {
        all_round_trip(s.drop_last()) && round_trips(s.last())
    }
}

//%% Sequences %%//vvvvvvvvvvvvvvvvvvvvvvvvvvvvvvvvvvvvv/

/// The bytes of `b` that stand between `p` and `r`.
proof fn lemma_middle(p: Seq<u8>, b: Seq<u8>, r: Seq<u8>)
    ensures
        (p + b + r).subrange(p.len() as int, (p.len() + b.len()) as int) == b,
        (p + b + r).len() == p.len() + b.len() + r.len(),
{
    assert((p + b + r).subrange(p.len() as int, (p.len() + b.len()) as int) =~= b);
}

/// A concatenation, seen from its first item.
pub proof fn lemma_concat_map_front<T>(s: Seq<T>, f: spec_fn(T) -> Seq<u8>)
    requires
        s.len() > 0,
    ensures
        concat_map(s, f) == f(s[0]) + concat_map(s.drop_first(), f),
    decreases s.len(),
{
    if s.len() == 1 {
        assert(s.drop_last() =~= Seq::<T>::empty());
        assert(s.drop_first() =~= Seq::<T>::empty());
        assert(concat_map(s, f) =~= f(s[0]) + concat_map(s.drop_first(), f));
    } else {
        lemma_concat_map_front(s.drop_last(), f);
        assert(s.drop_last().drop_first() =~= s.drop_first().drop_last());
        assert(s.drop_first().last() == s.last());
        assert(concat_map(s, f) =~= f(s[0]) + concat_map(s.drop_first(), f));
    }
}

/// Items of a fixed width stand one after the other.
pub proof fn lemma_concat_map_fixed<T>(s: Seq<T>, f: spec_fn(T) -> Seq<u8>, w: int)
    requires
        w > 0,
        forall|x: T| #[trigger] f(x).len() == w,
    ensures
        concat_map(s, f).len() == w * s.len(),
        forall|i: int|
            0 <= i < s.len() ==> concat_map(s, f).subrange(w * i, w * i + w) == f(#[trigger] s[i]),
    decreases s.len(),
{
    if s.len() > 0 {
        let n = s.len() - 1;
        lemma_concat_map_fixed(s.drop_last(), f, w);
        let a = concat_map(s.drop_last(), f);
        assert(w * n + w == w * s.len()) by (nonlinear_arith)
            requires
                n == s.len() - 1,
        ;
        assert forall|i: int| 0 <= i < s.len() implies concat_map(s, f).subrange(w * i, w * i + w)
            == f(#[trigger] s[i]) by {
            if i < n {
                assert(w * i + w <= w * n) by (nonlinear_arith)
                    requires
                        i < n,
                        w > 0,
                ;
                assert(0 <= w * i) by (nonlinear_arith)
                    requires
                        0 <= i,
                        w > 0,
                ;
                assert(concat_map(s, f).subrange(w * i, w * i + w) =~= a.subrange(w * i, w * i + w));
                assert(s.drop_last()[i] == s[i]);
            } else {
                assert(concat_map(s, f).subrange(w * i, w * i + w) =~= f(s.last()));
            }
        }
    }
}

/// The encodings of objects, seen from the first one.
pub proof fn lemma_encode_all_front(s: Seq<QObject>, encode: u8)
    requires
        s.len() > 0,
    ensures
        encode_all(s, encode) == encode_q(s[0], encode) + encode_all(s.drop_first(), encode),
    decreases s.len(),
{
    if s.len() == 1 {
        assert(s.drop_last() =~= Seq::<QObject>::empty());
        assert(s.drop_first() =~= Seq::<QObject>::empty());
        assert(encode_all(s, encode) =~= encode_q(s[0], encode) + encode_all(s.drop_first(), encode));
    } else {
        lemma_encode_all_front(s.drop_last(), encode);
        assert(s.drop_last().drop_first() =~= s.drop_first().drop_last());
        assert(s.drop_first().last() == s.last());
        assert(encode_all(s, encode) =~= encode_q(s[0], encode) + encode_all(s.drop_first(), encode));
    }
}

/// Each of a sequence that all come back comes back.
pub proof fn lemma_all_round_trip(s: Seq<QObject>, i: int)
    requires
        all_round_trip(s),
        0 <= i < s.len(),
    ensures
        round_trips(s[i]),
    decreases s.len(),
{
    if i < s.len() - 1 {
        lemma_all_round_trip(s.drop_last(), i);
    }
}

/// The objects after the first of a sequence that all come back.
pub proof fn lemma_all_round_trip_rest(s: Seq<QObject>)
    requires
        all_round_trip(s),
        s.len() > 0,
    ensures
        all_round_trip(s.drop_first()),
    decreases s.len(),
{
    if s.len() > 1 {
        lemma_all_round_trip_rest(s.drop_last());
        assert(s.drop_last().drop_first() =~= s.drop_first().drop_last());
    } else {
        assert(s.drop_first() =~= Seq::<QObject>::empty());
    }
}

//%% Numbers %%//vvvvvvvvvvvvvvvvvvvvvvvvvvvvvvvvvvvvvvv/

/// An unsigned integer written in a stream is read back at its position.
proof fn lemma_uint_at(p: Seq<u8>, x: nat, n: nat, r: Seq<u8>, encode: u8)
    requires
        super::bytes::fits(x, n),
    ensures
        uint_bytes(x, n, encode).len() == n,
        uint_at(p + uint_bytes(x, n, encode) + r, p.len() as int, n as int, encode) == x,
{
    lemma_uint_roundtrip(x, n, encode);
    lemma_middle(p, uint_bytes(x, n, encode), r);
}

/// The widths of q's integers hold their values.
proof fn lemma_fits_all(a: u16, b: u32, c: u64)
    ensures
        super::bytes::fits(a as nat, 2),
        super::bytes::fits(b as nat, 4),
        super::bytes::fits(c as nat, 8),
{
    lemma_pow256_values();
}

/// A signed integer passes through its unsigned bit pattern unchanged.
proof fn lemma_signed_casts(a: i16, b: i32, c: i64)
    ensures
        ((a as u16) as i16) == a,
        ((b as u32) as i32) == b,
        ((c as u64) as i64) == c,
{
    assert(((a as u16) as i16) == a) by (bit_vector);
    assert(((b as u32) as i32) == b) by (bit_vector);
    assert(((c as u64) as i64) == c) by (bit_vector);
}


/// A type byte followed by an unsigned integer, in a stream.
proof fn lemma_number_at(p: Seq<u8>, head: u8, x: nat, n: nat, r: Seq<u8>, encode: u8)
    requires
        super::bytes::fits(x, n),
    ensures
        ({
            let b = p + (seq![head] + uint_bytes(x, n, encode)) + r;
            &&& b.len() == p.len() + 1 + n + r.len()
            &&& b[p.len() as int] == head
            &&& uint_at(b, p.len() + 1int, n as int, encode) == x
        }),
{
    let u = uint_bytes(x, n, encode);
    lemma_uint_at(p + seq![head], x, n, r, encode);
    assert(p + (seq![head] + u) + r =~= (p + seq![head]) + u + r);
}

/// The type bytes that the serializer writes as constants are the type indicators.
proof fn lemma_type_bytes()
    ensures
        (0xfeu8 as i8) == qtype::GUID_ATOM,
        (0xfbu8 as i8) == qtype::SHORT_ATOM,
        (0xf8u8 as i8) == qtype::REAL_ATOM,
        (0xf5u8 as i8) == qtype::SYMBOL_ATOM,
        (0x65u8 as i8) == qtype::NULL,
        (0x62u8 as i8) == qtype::TABLE,
        (0x0bu8 as i8) == qtype::SYMBOL_LIST,
        (0x0au8 as i8) == qtype::STRING,
        (0x02u8 as i8) == qtype::GUID_LIST,
        (0x05u8 as i8) == qtype::SHORT_LIST,
        (0x08u8 as i8) == qtype::REAL_LIST,
{
    assert((0xfeu8 as i8) == -2i8) by (bit_vector);
    assert((0xfbu8 as i8) == -5i8) by (bit_vector);
    assert((0xf8u8 as i8) == -8i8) by (bit_vector);
    assert((0xf5u8 as i8) == -11i8) by (bit_vector);
    assert((0x65u8 as i8) == 101i8) by (bit_vector);
    assert((0x62u8 as i8) == 98i8) by (bit_vector);
    assert((0x0bu8 as i8) == 11i8) by (bit_vector);
    assert((0x0au8 as i8) == 10i8) by (bit_vector);
    assert((0x02u8 as i8) == 2i8) by (bit_vector);
    assert((0x05u8 as i8) == 5i8) by (bit_vector);
    assert((0x08u8 as i8) == 8i8) by (bit_vector);
}

/// A type indicator passes through its byte unchanged.
proof fn lemma_type_byte(t: i8)
    ensures
        ((t as u8) as i8) == t,
{
    assert(((t as u8) as i8) == t) by (bit_vector);
}

/// An atom of a fixed width comes back.
proof fn lemma_atom_round_trip(k: QObject, encode: u8, p: Seq<u8>, r: Seq<u8>)
    requires
        super::serialize::encodable(k),
        round_trips(k),
        k.qtype != qtype::NULL,
        atom_width(k.qtype) > 0,
    ensures
        decode_q(p + encode_q(k, encode) + r, p.len() as int, encode) == Some(
            (k, (p.len() + encode_q(k, encode).len()) as int),
        ),
{
    let t = k.qtype;
    let e = encode_q(k, encode);
    let b = p + e + r;
    let c: int = p.len() + 1int;
    lemma_type_bytes();
    lemma_type_byte(t);
    match k.value {
        QValue::Byte(x) => {
            assert(b[p.len() as int] == t as u8);
            assert(b[c] == x);
        },
        QValue::Guid(g) => {
            assert(e == seq![0xfeu8] + g@);
            assert(b.subrange(c, c + 16) =~= g@);
            super::deserialize::lemma_guid_of(g);
        },
        QValue::Short(x) => {
            lemma_fits_all(x as u16, 0, 0);
            lemma_number_at(p, 0xfbu8, (x as u16) as nat, 2, r, encode);
            lemma_signed_casts(x, 0, 0);
        },
        QValue::Int(x) => {
            lemma_fits_all(0, x as u32, 0);
            lemma_number_at(p, t as u8, (x as u32) as nat, 4, r, encode);
            lemma_signed_casts(0, x, 0);
        },
        QValue::Long(x) => {
            lemma_fits_all(0, 0, x as u64);
            lemma_number_at(p, t as u8, (x as u64) as nat, 8, r, encode);
            lemma_signed_casts(0, 0, x);
        },
        QValue::Real(x) => {
            lemma_fits_all(0, x, 0);
            lemma_number_at(p, 0xf8u8, x as nat, 4, r, encode);
        },
        QValue::Float(x) => {
            lemma_fits_all(0, 0, x);
            lemma_number_at(p, t as u8, x as nat, 8, r, encode);
        },
        _ => {},
    }
    assert(decode_q(b, p.len() as int, encode) == decode_atom(b, p.len() as int, encode));
}


//%% Text %%//vvvvvvvvvvvvvvvvvvvvvvvvvvvvvvvvvvvvvvvvvv/

/// The UTF-8 encoding of a character other than the null character holds no null byte.
proof fn lemma_scalar_nonzero(c: u32)
    requires
        vstd::utf8::is_scalar(c),
        c != 0,
    ensures
        forall|i: int| 0 <= i < vstd::utf8::encode_scalar(c).len() ==> #[trigger] vstd::utf8::encode_scalar(c)[i] != 0,
{
    assert((c & 0x7F) as u8 != 0 || c > 0x7F) by (bit_vector)
        requires
            c != 0,
    ;
    assert((0xC0u8 | ((c >> 6) & 0x1F) as u8) != 0) by (bit_vector);
    assert((0xE0u8 | ((c >> 12) & 0x0F) as u8) != 0) by (bit_vector);
    assert((0xF0u8 | ((c >> 18) & 0x7) as u8) != 0) by (bit_vector);
    assert((0x80u8 | (c & 0x3F) as u8) != 0) by (bit_vector);
    assert((0x80u8 | ((c >> 6) & 0x3F) as u8) != 0) by (bit_vector);
    assert((0x80u8 | ((c >> 12) & 0x3F) as u8) != 0) by (bit_vector);
}

/// The UTF-8 encoding of a text without null characters holds no null byte.
proof fn lemma_utf8_no_null(s: Seq<char>)
    requires
        no_null_char(s),
    ensures
        forall|i: int| 0 <= i < encode_utf8(s).len() ==> #[trigger] encode_utf8(s)[i] != 0,
    decreases s.len(),
{
    if s.len() > 0 {
        vstd::utf8::char_is_scalar(s[0]);
        lemma_scalar_nonzero(s[0] as u32);
        lemma_utf8_no_null(s.drop_first());
        let a = vstd::utf8::encode_scalar(s[0] as u32);
        let b = encode_utf8(s.drop_first());
        assert forall|i: int| 0 <= i < encode_utf8(s).len() implies #[trigger] encode_utf8(s)[i] != 0 by {
            if i < a.len() {
                assert(encode_utf8(s)[i] == a[i]);
            } else {
                assert(encode_utf8(s)[i] == b[i - a.len()]);
            }
        }
    }
}

/// The UTF-8 encoding of a text decodes to the text.
proof fn lemma_text_of_utf8(s: Seq<char>)
    ensures
        text_of(encode_utf8(s)) == Some(s),
{
    vstd::utf8::encode_utf8_valid_utf8(s);
    vstd::utf8::encode_utf8_decode_utf8(s);
}

/// A symbol without null characters comes back from its bytes in a stream.
proof fn lemma_symbol_round_trip(s: Seq<char>, p: Seq<u8>, r: Seq<u8>)
    requires
        no_null_char(s),
    ensures
        decode_symbol(p + symbol_bytes(s) + r, p.len() as int) == Some(
            (s, (p.len() + symbol_bytes(s).len()) as int),
        ),
{
    let u = encode_utf8(s);
    let b = p + symbol_bytes(s) + r;
    let j: int = (p.len() + u.len()) as int;
    lemma_utf8_no_null(s);
    assert(b[j] == 0);
    assert forall|i: int| p.len() <= i < j implies b[i] != 0 by {
        assert(b[i] == u[i - p.len()]);
    }
    reveal(first_null);
    let f = choose|k: int| p.len() <= k < b.len() && b[k] == 0 && forall|i: int|
        p.len() <= i < k ==> b[i] != 0;
    assert(p.len() <= f < b.len() && b[f] == 0 && forall|i: int| p.len() <= i < f ==> b[i] != 0);
    if f < j {
        assert(b[f] != 0);
    } else if j < f {
        assert(b[j] != 0);
    }
    assert(first_null(b, p.len() as int) == Some(j));
    assert(b.subrange(p.len() as int, j) =~= u);
    lemma_text_of_utf8(s);
}

/// Symbols without null characters come back from their bytes in a stream.
proof fn lemma_symbols_round_trip(s: Seq<Seq<char>>, p: Seq<u8>, r: Seq<u8>)
    requires
        no_null_chars(s),
    ensures
        decode_symbols(
            p + concat_map(s, |x: Seq<char>| symbol_bytes(x)) + r,
            p.len() as int,
            s.len(),
        ) == Some((s, (p.len() + concat_map(s, |x: Seq<char>| symbol_bytes(x)).len()) as int)),
    decreases s.len(),
{
    let f = |x: Seq<char>| symbol_bytes(x);
    if s.len() > 0 {
        lemma_concat_map_front(s, f);
        let rest = concat_map(s.drop_first(), f);
        assert(no_null_char(s[0]));
        lemma_symbol_round_trip(s[0], p, rest + r);
        assert(p + concat_map(s, f) + r =~= p + symbol_bytes(s[0]) + (rest + r));
        assert forall|i: int| 0 <= i < s.drop_first().len() implies no_null_char(
            #[trigger] s.drop_first()[i],
        ) by {
            assert(s.drop_first()[i] == s[i + 1]);
        }
        lemma_symbols_round_trip(s.drop_first(), p + symbol_bytes(s[0]), r);
        assert((p + symbol_bytes(s[0])) + rest + r =~= p + concat_map(s, f) + r);
        assert(seq![s[0]] + s.drop_first() =~= s);
    } else {
        assert(concat_map(s, f) =~= Seq::<u8>::empty());
        assert(s =~= Seq::<Seq<char>>::empty());
    }
}


//%% Lists %%//vvvvvvvvvvvvvvvvvvvvvvvvvvvvvvvvvvvvvvvvv/

/// The header of a list followed by its items, in a stream.
proof fn lemma_list_header_at(
    p: Seq<u8>,
    t: i8,
    attribute: i8,
    n: int,
    items: Seq<u8>,
    r: Seq<u8>,
    encode: u8,
)
    requires
        0 <= n <= u32::MAX,
    ensures
        ({
            let b = p + (list_header(t, attribute, n, encode) + items) + r;
            let q = p.len() as int;
            &&& list_header(t, attribute, n, encode).len() == 6
            &&& b.len() == p.len() + 6 + items.len() + r.len()
            &&& b[q] == t as u8
            &&& b[q + 1] == attribute as u8
            &&& uint_at(b, q + 2, 4, encode) == n
            &&& b.subrange(q + 6, q + 6 + items.len()) == items
            &&& b == (p + list_header(t, attribute, n, encode)) + items + r
        }),
{
    let h = list_header(t, attribute, n, encode);
    let l = length_bytes(n, encode);
    lemma_fits_all(0, n as u32, 0);
    lemma_uint_at(p + seq![t as u8, attribute as u8], (n as u32) as nat, 4, items + r, encode);
    assert(h == seq![t as u8, attribute as u8] + l);
    assert(p + (h + items) + r =~= (p + seq![t as u8, attribute as u8]) + l + (items + r));
    assert(p + (h + items) + r =~= (p + h) + items + r);
    lemma_middle(p + h, items, r);
}

/// The block of the item `i` in a stream of fixed-width items.
proof fn lemma_block<T>(b: Seq<u8>, at: int, s: Seq<T>, g: spec_fn(T) -> Seq<u8>, w: int, i: int)
    requires
        w > 0,
        forall|x: T| #[trigger] g(x).len() == w,
        0 <= at,
        at + w * s.len() <= b.len(),
        b.subrange(at, at + w * s.len()) == concat_map(s, g),
        0 <= i < s.len(),
    ensures
        b.subrange(at + w * i, at + w * i + w) == g(s[i]),
{
    lemma_concat_map_fixed(s, g, w);
    assert(0 <= w * i && w * i + w <= w * s.len()) by (nonlinear_arith)
        requires
            0 <= i < s.len(),
            w > 0,
    ;
    assert(b.subrange(at + w * i, at + w * i + w) =~= concat_map(s, g).subrange(w * i, w * i + w));
}

/// The items of a list of fixed-width items come back from their bytes.
proof fn lemma_fixed_items_round_trip(k: QObject, b: Seq<u8>, at: int, encode: u8)
    requires
        super::serialize::encodable(k),
        item_width(k.qtype) > 0,
        0 <= at,
        at + items_bytes(k.value, encode).len() <= b.len(),
        b.subrange(at, at + items_bytes(k.value, encode).len()) == items_bytes(k.value, encode),
    ensures
        items_bytes(k.value, encode).len() == item_width(k.qtype) * super::list::item_count(k.value),
        fixed_list(b, k.qtype, super::list::item_count(k.value), at, encode) == k.value,
{
    let t = k.qtype;
    lemma_pow256_values();
    match k.value {
        QValue::Bytes(s) => {
            assert(fixed_list(b, t, s.len() as int, at, encode) == QValue::Bytes(b.subrange(at, at + s.len())));
        },
        QValue::Guids(s) => {
            let g = |x: [u8; 16]| x@;
            lemma_concat_map_fixed(s, g, 16);
            assert forall|i: int| 0 <= i < s.len() implies #[trigger] guid_of(
                b.subrange(at + 16 * i, at + 16 * i + 16),
            ) == s[i] by {
                lemma_block(b, at, s, g, 16, i);
                super::deserialize::lemma_guid_of(s[i]);
            }
            assert(fixed_items(s.len() as int, at, 16, |p: int| guid_of(b.subrange(p, p + 16))) =~= s);
        },
        QValue::Shorts(s) => {
            let g = |x: i16| short_bytes(x, encode);
            assert forall|x: i16| #[trigger] g(x).len() == 2 by {
                lemma_uint_roundtrip((x as u16) as nat, 2, encode);
            }
            lemma_concat_map_fixed(s, g, 2);
            assert forall|i: int| 0 <= i < s.len() implies #[trigger] short_at(b, at + 2 * i, encode)
                == s[i] by {
                lemma_block(b, at, s, g, 2, i);
                lemma_uint_roundtrip((s[i] as u16) as nat, 2, encode);
                lemma_signed_casts(s[i], 0, 0);
            }
            assert(fixed_items(s.len() as int, at, 2, |p: int| short_at(b, p, encode)) =~= s);
        },
        QValue::Ints(s) => {
            let g = |x: i32| int_bytes(x, encode);
            assert forall|x: i32| #[trigger] g(x).len() == 4 by {
                lemma_uint_roundtrip((x as u32) as nat, 4, encode);
            }
            lemma_concat_map_fixed(s, g, 4);
            assert forall|i: int| 0 <= i < s.len() implies #[trigger] int_at(b, at + 4 * i, encode)
                == s[i] by {
                lemma_block(b, at, s, g, 4, i);
                lemma_uint_roundtrip((s[i] as u32) as nat, 4, encode);
                lemma_signed_casts(0, s[i], 0);
            }
            assert(fixed_items(s.len() as int, at, 4, |p: int| int_at(b, p, encode)) =~= s);
        },
        QValue::Longs(s) => {
            let g = |x: i64| long_bytes(x, encode);
            assert forall|x: i64| #[trigger] g(x).len() == 8 by {
                lemma_uint_roundtrip((x as u64) as nat, 8, encode);
            }
            lemma_concat_map_fixed(s, g, 8);
            assert forall|i: int| 0 <= i < s.len() implies #[trigger] long_at(b, at + 8 * i, encode)
                == s[i] by {
                lemma_block(b, at, s, g, 8, i);
                lemma_uint_roundtrip((s[i] as u64) as nat, 8, encode);
                lemma_signed_casts(0, 0, s[i]);
            }
            assert(fixed_items(s.len() as int, at, 8, |p: int| long_at(b, p, encode)) =~= s);
        },
        QValue::Reals(s) => {
            let g = |x: u32| real_bytes(x, encode);
            assert forall|x: u32| #[trigger] g(x).len() == 4 by {
                lemma_uint_roundtrip(x as nat, 4, encode);
            }
            lemma_concat_map_fixed(s, g, 4);
            assert forall|i: int| 0 <= i < s.len() implies #[trigger] (uint_at(b, at + 4 * i, 4, encode)
                as u32) == s[i] by {
                lemma_block(b, at, s, g, 4, i);
                lemma_uint_roundtrip(s[i] as nat, 4, encode);
            }
            assert(fixed_items(s.len() as int, at, 4, |p: int| uint_at(b, p, 4, encode) as u32) =~= s);
        },
        QValue::Floats(s) => {
            let g = |x: u64| float_bytes(x, encode);
            assert forall|x: u64| #[trigger] g(x).len() == 8 by {
                lemma_uint_roundtrip(x as nat, 8, encode);
            }
            lemma_concat_map_fixed(s, g, 8);
            assert forall|i: int| 0 <= i < s.len() implies #[trigger] (uint_at(b, at + 8 * i, 8, encode)
                as u64) == s[i] by {
                lemma_block(b, at, s, g, 8, i);
                lemma_uint_roundtrip(s[i] as nat, 8, encode);
            }
            assert(fixed_items(s.len() as int, at, 8, |p: int| uint_at(b, p, 8, encode) as u64) =~= s);
        },
        _ => {},
    }
}


/// A list of fixed-width items, a string or a symbol list comes back.
proof fn lemma_simple_list_round_trip(k: QObject, encode: u8, p: Seq<u8>, r: Seq<u8>)
    requires
        super::serialize::encodable(k),
        round_trips(k),
        k.qtype != qtype::NULL,
        item_width(k.qtype) > 0 || k.qtype == qtype::STRING || k.qtype == qtype::SYMBOL_LIST,
    ensures
        decode_q(p + encode_q(k, encode) + r, p.len() as int, encode) == Some(
            (k, (p.len() + encode_q(k, encode).len()) as int),
        ),
{
    let t = k.qtype;
    let e = encode_q(k, encode);
    let b = p + e + r;
    let q = p.len() as int;
    lemma_type_bytes();
    lemma_type_byte(t);
    lemma_type_byte(k.attribute);
    let items: Seq<u8> = match k.value {
        QValue::Text(s) => encode_utf8(s),
        _ => items_bytes(k.value, encode),
    };
    let n: int = match k.value {
        QValue::Text(s) => encode_utf8(s).len() as int,
        _ => super::list::item_count(k.value),
    };
    assert(e == list_header(t, k.attribute, n, encode) + items);
    lemma_list_header_at(p, t, k.attribute, n, items, r, encode);
    let h = list_header(t, k.attribute, n, encode);
    assert(attribute_and_size(b, q + 1, encode) == (k.attribute, n, q + 6));
    match k.value {
        QValue::Text(s) => {
            lemma_text_of_utf8(s);
            assert(decode_simple_list(b, q, encode) == Some((k, q + 6 + n)));
        },
        QValue::Symbols(s) => {
            lemma_symbols_round_trip(s, p + h, r);
            assert(decode_simple_list(b, q, encode) == Some((k, q + 6 + items.len())));
        },
        _ => {
            lemma_fixed_items_round_trip(k, b, q + 6, encode);
            assert(decode_simple_list(b, q, encode) == Some((k, q + 6 + items.len())));
        },
    }
    assert(decode_q(b, q, encode) == decode_simple_list(b, q, encode));
}


//%% Objects %%//vvvvvvvvvvvvvvvvvvvvvvvvvvvvvvvvvvvvvvv/

/// The objects after the first of an encodable sequence are encodable.
proof fn lemma_all_encodable_rest(s: Seq<QObject>)
    requires
        super::serialize::all_encodable(s),
        s.len() > 0,
    ensures
        super::serialize::all_encodable(s.drop_first()),
    decreases s.len(),
{
    if s.len() > 1 {
        lemma_all_encodable_rest(s.drop_last());
        assert(s.drop_last().drop_first() =~= s.drop_first().drop_last());
    } else {
        assert(s.drop_first() =~= Seq::<QObject>::empty());
    }
}

/// The encoding of an encodable object starts with its type byte, so it is not empty.
proof fn lemma_encode_nonempty(k: QObject, encode: u8)
    requires
        super::serialize::encodable(k),
    ensures
        encode_q(k, encode).len() > 0,
{
}

/// A compound list comes back.
proof fn lemma_compound_round_trip(k: QObject, encode: u8, p: Seq<u8>, r: Seq<u8>)
    requires
        super::serialize::encodable(k),
        round_trips(k),
        k.qtype == qtype::COMPOUND_LIST,
        k.value is Objects,
    ensures
        decode_q(p + encode_q(k, encode) + r, p.len() as int, encode) == Some(
            (k, (p.len() + encode_q(k, encode).len()) as int),
        ),
    decreases k, 0int,
{
    let t = k.qtype;
    let s = k.value->Objects_0;
    let e = encode_q(k, encode);
    let b = p + e + r;
    let q = p.len() as int;
    lemma_type_byte(t);
    let h = list_header(t, k.attribute, s.len() as int, encode);
    let all = encode_all(s, encode);
    lemma_list_header_at(p, t, k.attribute, s.len() as int, all, r, encode);
    lemma_decode_encode_all(s, encode, p + h, r);
    assert(decode_compound(b, q, encode) == Some((k, q + e.len())));
}

/// A dictionary comes back.
#[verifier::rlimit(100)]
#[verifier::spinoff_prover]
proof fn lemma_dictionary_round_trip(k: QObject, encode: u8, p: Seq<u8>, r: Seq<u8>)
    requires
        super::serialize::encodable(k),
        round_trips(k),
        k.qtype == qtype::DICTIONARY || k.qtype == qtype::SORTED_DICTIONARY,
        k.value is Objects,
    ensures
        decode_q(p + encode_q(k, encode) + r, p.len() as int, encode) == Some(
            (k, (p.len() + encode_q(k, encode).len()) as int),
        ),
    decreases k, 0int,
{
    let t = k.qtype;
    let s = k.value->Objects_0;
    let e = encode_q(k, encode);
    let b = p + e + r;
    let q = p.len() as int;
    lemma_type_byte(t);
    let e0 = encode_q(s[0], encode);
    let e1 = encode_q(s[1], encode);
    lemma_encode_nonempty(s[0], encode);
    assert(e == seq![t as u8] + e0 + e1);
    lemma_decode_encode(s[0], encode, p + seq![t as u8], e1 + r);
    assert(b =~= (p + seq![t as u8]) + e0 + (e1 + r));
    assert(decode_q(b, q + 1, encode) == Some((s[0], q + 1 + e0.len())));
    lemma_decode_encode(s[1], encode, p + seq![t as u8] + e0, r);
    assert(b =~= (p + seq![t as u8] + e0) + e1 + r);
    assert(decode_q(b, q + 1 + e0.len(), encode) == Some((s[1], q + 1 + e0.len() + e1.len())));
    assert(seq![s[0], s[1]] =~= s);
    assert(decoded_dictionary(s[0], s[1]) == Some(k));
    assert(decode_dictionary(b, q, encode) == Some((k, q + e.len())));
    assert(b[q] == t as u8);
    assert(decode_q(b, q, encode) == decode_dictionary(b, q, encode));
}

/// A table comes back.
#[verifier::rlimit(50)]
proof fn lemma_table_round_trip(k: QObject, encode: u8, p: Seq<u8>, r: Seq<u8>)
    requires
        super::serialize::encodable(k),
        round_trips(k),
        k.qtype == qtype::TABLE,
        k.value is Table,
    ensures
        decode_q(p + encode_q(k, encode) + r, p.len() as int, encode) == Some(
            (k, (p.len() + encode_q(k, encode).len()) as int),
        ),
    decreases k, 0int,
{
    let e = encode_q(k, encode);
    let b = p + e + r;
    let q = p.len() as int;
    lemma_type_bytes();
    let d = *k.value->Table_0;
    let kv = d.value->Objects_0;
    let names = kv[0];
    let columns = kv[1];
    let cs = columns.value->Objects_0;
    let head = seq![0x62u8, 0u8, 0x63u8];
    let sl = symbol_list_bytes(names, encode);
    let ns = names.value->Symbols_0;
    let syms = concat_map(ns, |x: Seq<char>| symbol_bytes(x));
    let ch = list_header(columns.qtype, columns.attribute, cs.len() as int, encode);
    let all = encode_all(cs, encode);
    assert(e == head + sl + ch + all);
    let sh = list_header(qtype::SYMBOL_LIST, names.attribute, ns.len() as int, encode);
    assert(sl == sh + syms);
    lemma_list_header_at(p + head, qtype::SYMBOL_LIST, names.attribute, ns.len() as int, syms, ch + all + r, encode);
    assert(b =~= (p + head) + (sh + syms) + (ch + all + r));
    lemma_symbols_round_trip(ns, p + head + sh, ch + all + r);
    assert(b =~= (p + head + sh) + syms + (ch + all + r));
    lemma_list_header_at(p + head + sl, columns.qtype, columns.attribute, cs.len() as int, all, r, encode);
    assert(b =~= (p + head + sl) + (ch + all) + r);
    lemma_decode_encode_all(cs, encode, p + head + sl + ch, r);
    assert(b =~= (p + head + sl + ch) + all + r);
    lemma_type_byte(names.attribute);
    assert(seq![names, columns] =~= kv);
    assert(decode_table(b, q, encode) == Some((k, q + e.len())));
}

/// Decoding the encoding of an object that round-trips, wherever it stands in a stream, gives
/// the object and the position right after its encoding.
pub proof fn lemma_decode_encode(k: QObject, encode: u8, p: Seq<u8>, r: Seq<u8>)
    requires
        super::serialize::encodable(k),
        round_trips(k),
    ensures
        decode_q(p + encode_q(k, encode) + r, p.len() as int, encode) == Some(
            (k, (p.len() + encode_q(k, encode).len()) as int),
        ),
    decreases k, 1int,
{
    let t = k.qtype;
    let e = encode_q(k, encode);
    let b = p + e + r;
    let q = p.len() as int;
    lemma_type_bytes();
    lemma_type_byte(t);
    if t == qtype::NULL {
        assert(k == atom(qtype::NULL, QValue::Null));
        assert(b[q] == 0x65u8);
    } else if atom_width(t) > 0 {
        lemma_atom_round_trip(k, encode, p, r);
    } else {
        match k.value {
            QValue::Text(s) => {
                if t == qtype::SYMBOL_ATOM {
                    lemma_symbol_round_trip(s, p + seq![0xf5u8], r);
                    assert(b =~= (p + seq![0xf5u8]) + symbol_bytes(s) + r);
                    assert(decode_text_atom(b, q) == Some((k, q + e.len())));
                } else {
                    lemma_simple_list_round_trip(k, encode, p, r);
                }
            },
            QValue::Objects(s) => {
                if t == qtype::COMPOUND_LIST {
                    lemma_compound_round_trip(k, encode, p, r);
                } else {
                    lemma_dictionary_round_trip(k, encode, p, r);
                }
            },
            QValue::Table(d) => {
                lemma_table_round_trip(k, encode, p, r);
            },
            _ => {
                lemma_simple_list_round_trip(k, encode, p, r);
            },
        }
    }
}

/// Decoding the encodings of objects that round-trip, one after the other, gives the objects.
pub proof fn lemma_decode_encode_all(s: Seq<QObject>, encode: u8, p: Seq<u8>, r: Seq<u8>)
    requires
        super::serialize::all_encodable(s),
        all_round_trip(s),
    ensures
        decode_all(p + encode_all(s, encode) + r, p.len() as int, s.len(), encode) == Some(
            (s, (p.len() + encode_all(s, encode).len()) as int),
        ),
    decreases s, 0int,
{
    if s.len() == 0 {
        assert(encode_all(s, encode) =~= Seq::<u8>::empty());
        assert(s =~= Seq::<QObject>::empty());
    } else {
        lemma_encode_all_front(s, encode);
        let e0 = encode_q(s[0], encode);
        let rest = encode_all(s.drop_first(), encode);
        super::serialize::lemma_all_encodable(s, 0);
        lemma_all_round_trip(s, 0);
        lemma_encode_nonempty(s[0], encode);
        lemma_decode_encode(s[0], encode, p, rest + r);
        assert(p + encode_all(s, encode) + r =~= p + e0 + (rest + r));
        if s.len() == 1 {
            assert(s.drop_first() =~= Seq::<QObject>::empty());
            assert(rest =~= Seq::<u8>::empty());
            assert(seq![s[0]] =~= s);
        } else {
            lemma_all_encodable_rest(s);
            lemma_all_round_trip_rest(s);
            lemma_decode_encode_all(s.drop_first(), encode, p + e0, r);
            assert(p + encode_all(s, encode) + r =~= (p + e0) + rest + r);
            assert(seq![s[0]] + s.drop_first() =~= s);
        }
    }
}


/// Decoding the encoding of a q object gives the object back, for every object that the
/// serializer handles and whose encoding carries all of it (see `round_trips`).
pub proof fn law_decode_encode(k: QObject, encode: u8)
    requires
        super::serialize::encodable(k),
        round_trips(k),
    ensures
        decode_q(encode_q(k, encode), 0, encode) == Some((k, encode_q(k, encode).len() as int)),
{
    lemma_decode_encode(k, encode, Seq::empty(), Seq::empty());
    assert(Seq::<u8>::empty() + encode_q(k, encode) + Seq::<u8>::empty() =~= encode_q(k, encode));
}

/// A q error as q sends it, the error type byte followed by the message and a null byte,
/// decodes to the error atom that `K::new_error` makes of the message, the cursor just past the
/// null byte; the byte order plays no part.
pub proof fn law_decode_error(message: Seq<char>, encode: u8)
    requires
        no_null_char(message),
    ensures
        decode_q(seq![0x80u8] + encode_utf8(message) + seq![0u8], 0, encode) == Some(
            (atom(qtype::ERROR, QValue::Text(message)), (encode_utf8(message).len() + 2) as int),
        ),
{
    let head = seq![0x80u8];
    lemma_symbol_round_trip(message, head, Seq::empty());
    let b = head + symbol_bytes(message) + Seq::<u8>::empty();
    assert(b =~= seq![0x80u8] + encode_utf8(message) + seq![0u8]);
    assert(b[0] == 0x80u8);
    assert((0x80u8 as i8) == -128i8) by (bit_vector);
}

} // verus!
