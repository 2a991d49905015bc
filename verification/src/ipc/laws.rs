//! Properties that relate several operations of the library.

use super::bytes::{le_value, lemma_le_bytes_len, lemma_pow256_values, lemma_uint_roundtrip, uint_at, uint_bytes};
use super::compression::{deflate, inflate};
use super::connection::{header_length, object_message, text_query_message};
use super::inflate_deflate::{law_deflate_frame, law_inflate_deflate};
use super::deserialize::decode_q;
use super::calendar::{
    days_before_year, days_from_civil, lemma_civil_of, lemma_days_before_year_monotonic,
    lemma_days_from_civil_in_year, trunc_div, valid_ymd, MAX_DAYS, MAX_YEAR, MIN_DAYS, MIN_YEAR,
};
use super::format::month_text;
use super::text::{digits, glyphs, int_text, padded};
use super::error::{type_label, Error};
use super::list::{
    dropped_last, insert_error, inserted, is_list_type, item_count, pop_any_result, push_error, q_len,
    remove_any_result, removed_at,
    removed_object, with_value, ElementView,
};
use super::object::{atom, bool_byte, char_byte};
use super::qtime::{q_date_of, q_month_of, q_timestamp_of};
use super::object::QValue;
use super::object::QObject;
use super::roundtrip::{law_decode_encode, round_trips};
use super::serialize::{encodable, encode_all, encode_q, list_header, symbol_list_bytes};
use super::object::{KList, KValue, K};
use super::table::{
    column_lookup, column_objects, first_index, has_name, header_names, is_first_index,
    mutable_column_place, table_column,
    after_pop, after_push, dictionary_of, enkeyable, enkeyed, entries, flippable, lemma_push_then_pop,
    table_dictionary, table_of, unkeyable, unkeyed,
};
use crate::{qattribute, qtype};
use vstd::prelude::*;

verus! {

/// A pop right after a push that succeeded succeeds and leaves the list as it was before the
/// push.
pub proof fn law_pop_after_push(k: QObject, e: ElementView)
    requires
        inserted(k, item_count(k.value), e) is Some,
    ensures
        pop_any_result(after_push(k, e)) is Ok,
        after_pop(after_push(k, e)) == k,
{
    lemma_push_then_pop(k, e);
    assert(dropped_last(after_push(k, e).value) == k.value);
}

/// The object that the constructor of the atom type of a list of type `t` builds from `e`
/// (`new_bool`, `new_month`, `new_minute`, ...); the object itself for a compound list.
pub open spec fn constructed_object(t: i8, e: ElementView) -> QObject {
    match e {
        ElementView::Bool(b) => atom(qtype::BOOL_ATOM, QValue::Byte(bool_byte(b))),
        ElementView::Guid(g) => atom(qtype::GUID_ATOM, QValue::Guid(g)),
        ElementView::Byte(x) => atom(qtype::BYTE_ATOM, QValue::Byte(x)),
        ElementView::Short(x) => atom(qtype::SHORT_ATOM, QValue::Short(x)),
        ElementView::Int(x) => atom(qtype::INT_ATOM, QValue::Int(x)),
        ElementView::Long(x) => atom(qtype::LONG_ATOM, QValue::Long(x)),
        ElementView::Real(x) => atom(qtype::REAL_ATOM, QValue::Real(x)),
        ElementView::Float(x) => atom(qtype::FLOAT_ATOM, QValue::Float(x)),
        ElementView::Char(c) => atom(qtype::CHAR, QValue::Byte(char_byte(c))),
        ElementView::Symbol(x) => atom(qtype::SYMBOL_ATOM, QValue::Text(x)),
        ElementView::Timestamp(n) => atom(qtype::TIMESTAMP_ATOM, QValue::Long(q_timestamp_of(n))),
        ElementView::Date(d) => if t == qtype::MONTH_LIST {
            atom(qtype::MONTH_ATOM, QValue::Int(q_month_of(d)))
        } else {
            atom(qtype::DATE_ATOM, QValue::Int(q_date_of(d)))
        },
        ElementView::Datetime(x) => atom(qtype::DATETIME_ATOM, QValue::Float(x)),
        ElementView::Duration(d) => if t == qtype::MINUTE_LIST {
            atom(qtype::MINUTE_ATOM, QValue::Int(trunc_div(d, 60_000_000_000) as i32))
        } else if t == qtype::SECOND_LIST {
            atom(qtype::SECOND_ATOM, QValue::Int(trunc_div(d, 1_000_000_000) as i32))
        } else if t == qtype::TIME_LIST {
            atom(qtype::TIME_ATOM, QValue::Int(trunc_div(d, 1_000_000) as i32))
        } else {
            atom(qtype::TIMESPAN_ATOM, QValue::Long(d as i64))
        },
        ElementView::Object(o) => o,
    }
}

/// A pop right after a push that succeeded gives the object that the matching constructor
/// builds from the pushed element (the element itself for a compound list).
pub proof fn law_pop_gives_pushed(k: QObject, e: ElementView)
    requires
        inserted(k, item_count(k.value), e) is Some,
    ensures
        pop_any_result(after_push(k, e)) == Ok::<QObject, Error>(constructed_object(k.qtype, e)),
{
    lemma_push_then_pop(k, e);
    let k1 = after_push(k, e);
    match k.value {
        QValue::Text(s) => assert(k1.value->Text_0.last() == e->Char_0),
        QValue::Bytes(s) => assert(k1.value->Bytes_0.last() == k1.value->Bytes_0[s.len() as int]),
        _ => {},
    }
}

/// A push that succeeds adds exactly one item to the list.
pub proof fn law_push_adds_one(k: QObject, e: ElementView)
    requires
        inserted(k, item_count(k.value), e) is Some,
    ensures
        item_count(after_push(k, e).value) == item_count(k.value) + 1,
{
}

/// The table of a dictionary of a symbol list of names and a compound list of columns (what
/// `flip` makes of it) holds that dictionary.
pub proof fn law_flip_dictionary(keys: QObject, values: QObject)
    requires
        keys.qtype == qtype::SYMBOL_LIST,
        values.qtype == qtype::COMPOUND_LIST,
    ensures
        flippable(dictionary_of(keys, values)),
        table_dictionary(table_of(dictionary_of(keys, values))) == dictionary_of(keys, values),
{
}

/// Unkeying a keyed table made by `enkey` gives back the table, for a table without an
/// attribute whose dictionary holds just its names and its columns.
pub proof fn law_unkey_enkey(t: QObject, n: int)
    requires
        t.qtype == qtype::TABLE,
        t.attribute == qattribute::NONE,
        t.value is Table,
        enkeyable(t, n),
        entries(table_dictionary(t)).len() == 2,
    ensures
        unkeyable(enkeyed(t, n)),
        flippable(unkeyed(enkeyed(t, n))),
        table_of(unkeyed(enkeyed(t, n))) == t,
{
    let d = table_dictionary(t);
    let k = enkeyed(t, n);
    let names = entries(d)[0];
    let columns = entries(d)[1];
    let m = super::table::key_count(d, n);
    assert(names.value->Symbols_0.take(m) + names.value->Symbols_0.skip(m) =~= names.value->Symbols_0);
    assert(columns.value->Objects_0.take(m) + columns.value->Objects_0.skip(m)
        =~= columns.value->Objects_0);
    let u = unkeyed(k);
    assert(entries(u) =~= entries(d));
    assert(u == d);
    assert(table_of(d) == t);
}

/// A message of a q object sent within the host carries the object uncompressed: its header
/// gives the byte order it was written in, the message type and its whole length, and
/// decoding its body in that order gives the object back (for an object whose encoding carries
/// all of it).
pub proof fn law_message_round_trip(k: QObject, encoding: u8, message_type: u8)
    requires
        encoding == 0 || encoding == 1,
        encodable(k),
        round_trips(k),
        encode_q(k, encoding).len() + 8 < 0x1_0000_0000,
    ensures
        ({
            let m = object_message(k, encoding, message_type, true);
            &&& m.len() >= 8
            &&& m[0] == encoding && m[1] == message_type && m[2] == 0
            &&& uint_at(m, 4, 4, m[0]) == m.len()
            &&& decode_q(m.skip(8), 0, m[0]) == Some((k, m.len() - 8))
        }),
{
    let body = encode_q(k, encoding);
    let m = object_message(k, encoding, message_type, true);
    let n = (8 + body.len()) as nat;
    lemma_pow256_values();
    lemma_uint_roundtrip(n, 4, encoding);
    assert(m.subrange(4, 8) =~= uint_bytes(n, 4, encoding));
    assert(m.skip(8) =~= body);
    law_decode_encode(k, encoding);
}

/// A message of a q object sent to another host carries the object, compressed or not: its
/// header gives the byte order it was written in, the message type and whether the body is
/// compressed, and the body, decompressed where it is, decodes in that order to the object
/// (for an object whose encoding carries all of it).
pub proof fn law_remote_message_round_trip(k: QObject, encoding: u8, message_type: u8)
    requires
        encoding == 0 || encoding == 1,
        encodable(k),
        round_trips(k),
        encode_q(k, encoding).len() + 8 <= i32::MAX,
    ensures
        ({
            let m = object_message(k, encoding, message_type, false);
            let body = if m[2] == 1 {
                inflate(m.skip(8), m[0])
            } else {
                Some(m.skip(8))
            };
            &&& m.len() >= 8
            &&& m[0] == encoding && m[1] == message_type && (m[2] == 0 || m[2] == 1)
            &&& body == Some(encode_q(k, encoding))
            &&& decode_q(encode_q(k, encoding), 0, m[0]) == Some(
                (k, encode_q(k, encoding).len() as int),
            )
        }),
{
    let body = encode_q(k, encoding);
    let m = object_message(k, encoding, message_type, false);
    let n = (8 + body.len()) as nat;
    let raw = seq![encoding, message_type, 0u8, 0u8, 0u8, 0u8, 0u8, 0u8] + body;
    lemma_le_bytes_len(n, 4);
    law_decode_encode(k, encoding);
    if body.len() > 1992 && deflate(raw, encoding) is Some {
        law_deflate_frame(raw, encoding);
        law_inflate_deflate(raw, encoding);
        assert(raw.skip(8) =~= body);
    } else {
        assert(m.skip(8) =~= body);
    }
}

/// The q month of a date of a four-digit year prints as the year, a dot and the month in two
/// digits (`1999.05` for any day of May 1999).
pub proof fn law_month_text(year: int, month: int, day: int)
    requires
        valid_ymd(year, month, day),
        1000 <= year <= 9999,
    ensures
        month_text(q_month_of(days_from_civil(year, month, day))) == glyphs(
            padded(year as nat, 4) + seq!['.'] + padded(month as nat, 2),
        ),
{
    let days = days_from_civil(year, month, day);
    lemma_civil_of(year, month, day);
    lemma_days_from_civil_in_year(year, month, day);
    lemma_days_before_year_monotonic(MIN_YEAR as int, year);
    lemma_days_before_year_monotonic(year + 1, MAX_YEAR as int + 1);
    assert(days_before_year(MIN_YEAR as int) == MIN_DAYS);
    assert(days_before_year(MAX_YEAR as int + 1) == MAX_DAYS + 1);
    lemma_days_before_year_monotonic(MIN_YEAR as int, 1000);
    lemma_days_before_year_monotonic(10000, MAX_YEAR as int + 1);
    let m: int = (year - 2000) * 12 + month - 1;
    assert(q_month_of(days) as int == m);
    assert(m / 12 == year - 2000 && m % 12 == month - 1) by (nonlinear_arith)
        requires
            m == (year - 2000) * 12 + month - 1,
            1 <= month <= 12,
    ;
    let y = year as nat;
    reveal_with_fuel(digits, 5);
    assert(digits(y).len() == 4) by {
        assert(y / 10 >= 100 && y / 10 / 10 >= 10 && y / 10 / 10 / 10 < 10) by (nonlinear_arith)
            requires
                1000 <= y <= 9999,
        ;
    }
    assert(int_text(2000 + m / 12) =~= padded(y, 4));
}

/// The length a header holds is the number that its bytes 4 to 7 give in the byte order that
/// its first byte names.
proof fn lemma_header_length(bytes: [u8; 8])
    requires
        bytes[0] == 0 || bytes[0] == 1,
    ensures
        header_length(bytes) == uint_at(bytes@, 4, 4, bytes[0]),
{
    let b = bytes@.subrange(4, 8);
    reveal_with_fuel(le_value, 5);
    if bytes[0] == 0 {
        let r = b.reverse();
        assert(r.drop_first().drop_first().drop_first().drop_first() =~= Seq::<u8>::empty());
        assert(r =~= seq![bytes[7], bytes[6], bytes[5], bytes[4]]);
    } else {
        assert(b =~= seq![bytes[4], bytes[5], bytes[6], bytes[7]]);
        assert(b.drop_first().drop_first().drop_first().drop_first() =~= Seq::<u8>::empty());
    }
}

/// The header that `MessageHeader::from_bytes` reads off the first 8 bytes of the message of a
/// text query gives the byte order it was written in, the message type, no compression and
/// the length of the whole message.
pub proof fn law_text_query_header(text: Seq<u8>, encoding: u8, message_type: u8, bytes: [u8; 8])
    requires
        encoding == 0 || encoding == 1,
        14 + text.len() < 0x1_0000_0000,
        bytes@ == text_query_message(text, encoding, message_type).take(8),
    ensures
        bytes[0] == encoding && bytes[1] == message_type && bytes[2] == 0,
        header_length(bytes) == text_query_message(text, encoding, message_type).len(),
{
    let m = text_query_message(text, encoding, message_type);
    let n = (14 + text.len()) as nat;
    lemma_pow256_values();
    lemma_uint_roundtrip(n, 4, encoding);
    lemma_uint_roundtrip(text.len(), 4, encoding);
    assert(bytes[0] == bytes@[0]);
    assert(m.len() == n);
    assert(bytes@.subrange(4, 8) =~= uint_bytes(n, 4, encoding));
    lemma_header_length(bytes);
}

/// The header that `MessageHeader::from_bytes` reads off the first 8 bytes of the message of a
/// q object sent within the host gives the byte order it was written in, the message type, no
/// compression and the length of the whole message.
pub proof fn law_object_header(k: QObject, encoding: u8, message_type: u8, bytes: [u8; 8])
    requires
        encoding == 0 || encoding == 1,
        encode_q(k, encoding).len() + 8 < 0x1_0000_0000,
        bytes@ == object_message(k, encoding, message_type, true).take(8),
    ensures
        bytes[0] == encoding && bytes[1] == message_type && bytes[2] == 0,
        header_length(bytes) == object_message(k, encoding, message_type, true).len(),
{
    let m = object_message(k, encoding, message_type, true);
    let n = (8 + encode_q(k, encoding).len()) as nat;
    lemma_pow256_values();
    lemma_uint_roundtrip(n, 4, encoding);
    assert(bytes[0] == bytes@[0]);
    assert(bytes@.subrange(4, 8) =~= uint_bytes(n, 4, encoding));
    lemma_header_length(bytes);
}

/// Removing what was just inserted at a position gives the sequence back.
proof fn lemma_insert_remove<T>(s: Seq<T>, pos: int, x: T)
    requires
        0 <= pos <= s.len(),
    ensures
        s.insert(pos, x).remove(pos) == s,
{
    assert(s.insert(pos, x).remove(pos) =~= s);
}

/// Removing the item at the position where an insert stored an element leaves the list as it
/// was before the insert.
pub proof fn law_remove_after_insert(k: QObject, pos: int, e: ElementView)
    requires
        inserted(k, pos, e) is Some,
        0 <= pos <= item_count(k.value),
    ensures
        removed_at(inserted(k, pos, e).unwrap(), pos) == k.value,
{
    match k.value {
        QValue::Text(s) => lemma_insert_remove(s, pos, e->Char_0),
        QValue::Bytes(s) => lemma_insert_remove(s, pos, inserted(k, pos, e).unwrap()->Bytes_0[pos]),
        QValue::Guids(s) => lemma_insert_remove(s, pos, e->Guid_0),
        QValue::Shorts(s) => lemma_insert_remove(s, pos, e->Short_0),
        QValue::Ints(s) => lemma_insert_remove(s, pos, inserted(k, pos, e).unwrap()->Ints_0[pos]),
        QValue::Longs(s) => lemma_insert_remove(s, pos, inserted(k, pos, e).unwrap()->Longs_0[pos]),
        QValue::Reals(s) => lemma_insert_remove(s, pos, e->Real_0),
        QValue::Floats(s) => lemma_insert_remove(s, pos, inserted(k, pos, e).unwrap()->Floats_0[pos]),
        QValue::Symbols(s) => lemma_insert_remove(s, pos, e->Symbol_0),
        QValue::Objects(s) => lemma_insert_remove(s, pos, e->Object_0),
        _ => {},
    }
}

/// A table goes on the wire as the table type, the attribute byte 0, and then its dictionary of
/// names and columns as a plain dictionary goes (type 99, the names, the columns), whether or not
/// the names are sorted.
pub proof fn law_table_encoding(names: QObject, columns: QObject, encode: u8)
    requires
        names.qtype == qtype::SYMBOL_LIST,
        names.value is Symbols,
        columns.qtype == qtype::COMPOUND_LIST,
        columns.value is Objects,
    ensures
        ({
            let plain = QObject {
                qtype: qtype::DICTIONARY,
                attribute: qattribute::NONE,
                value: QValue::Objects(seq![names, columns]),
            };
            &&& encode_q(table_of(plain), encode) == seq![0x62u8, 0u8] + encode_q(plain, encode)
            &&& encode_q(plain, encode) == seq![0x63u8] + encode_q(names, encode) + encode_q(
                columns,
                encode,
            )
            &&& encode_q(table_of(dictionary_of(names, columns)), encode) == encode_q(
                table_of(plain),
                encode,
            )
        }),
{
    let plain = QObject {
        qtype: qtype::DICTIONARY,
        attribute: qattribute::NONE,
        value: QValue::Objects(seq![names, columns]),
    };
    let a = symbol_list_bytes(names, encode);
    let cols = columns.value->Objects_0;
    let h = list_header(columns.qtype, columns.attribute, cols.len() as int, encode);
    let c = encode_all(cols, encode);
    assert(encode_q(names, encode) == a);
    assert(encode_q(columns, encode) == h + c);
    assert(plain.value->Objects_0[0] == names && plain.value->Objects_0[1] == columns);
    assert(encode_q(plain, encode) == seq![0x63u8] + a + (h + c));
    assert(encode_q(table_of(plain), encode) == seq![0x62u8, 0u8, 0x63u8] + a + h + c);
    assert(seq![0x62u8, 0u8, 0x63u8] + a + h + c =~= seq![0x62u8, 0u8] + (seq![0x63u8] + a + (h
        + c)));
    assert(encode_q(table_of(dictionary_of(names, columns)), encode) =~= encode_q(
        table_of(plain),
        encode,
    ));
}

/// A dictionary is sorted exactly when its keys are: built from keys with the sorted attribute
/// it has the type of a sorted dictionary (127), from any other keys that of a dictionary (99);
/// it holds the keys and the values as given, and goes on the wire under its own type.
pub proof fn law_dictionary_sortedness(keys: QObject, values: QObject, encode: u8)
    ensures
        keys.attribute == qattribute::SORTED ==> dictionary_of(keys, values).qtype
            == qtype::SORTED_DICTIONARY,
        keys.attribute != qattribute::SORTED ==> dictionary_of(keys, values).qtype
            == qtype::DICTIONARY,
        entries(dictionary_of(keys, values)) == seq![keys, values],
        encode_q(dictionary_of(keys, values), encode) == seq![
            dictionary_of(keys, values).qtype as u8,
        ] + encode_q(keys, encode) + encode_q(values, encode),
{
    let d = dictionary_of(keys, values);
    assert(entries(d)[0] == keys && entries(d)[1] == values);
}

/// A sorted dictionary that q sends (type 127, its sorted keys, its values) is received as a
/// sorted dictionary of those keys and values.
pub proof fn law_sorted_dictionary_received(keys: QObject, values: QObject, encode: u8)
    requires
        keys.attribute == qattribute::SORTED,
        encodable(keys),
        encodable(values),
        round_trips(keys),
        round_trips(values),
        q_len(keys) is Some,
        q_len(keys) == q_len(values),
    ensures
        ({
            let b = seq![127u8] + encode_q(keys, encode) + encode_q(values, encode);
            decode_q(b, 0, encode) == Some(
                (
                    QObject {
                        qtype: qtype::SORTED_DICTIONARY,
                        attribute: qattribute::NONE,
                        value: QValue::Objects(seq![keys, values]),
                    },
                    b.len() as int,
                ),
            )
        }),
{
    let d = dictionary_of(keys, values);
    law_dictionary_sortedness(keys, values, encode);
    assert(d.value->Objects_0[0] == keys && d.value->Objects_0[1] == values);
    law_decode_encode(d, encode);
}

/// Removing the item at the position where an insert stored an element gives the object that
/// the matching constructor builds from that element (the element itself for a compound list),
/// whatever the other items of the list are; for an element other than a calendar date or a
/// timestamp, which pass through the calendar on the way out.
pub proof fn law_remove_gives_inserted(k: QObject, pos: int, e: ElementView)
    requires
        inserted(k, pos, e) is Some,
        0 <= pos <= item_count(k.value),
        pos < usize::MAX,
        !(e is Date),
        !(e is Timestamp),
    ensures
        removed_object(with_value(k, inserted(k, pos, e).unwrap()), pos) == constructed_object(
            k.qtype,
            e,
        ),
        !(k.value is Text) ==> remove_any_result(with_value(k, inserted(k, pos, e).unwrap()), pos as usize)
            == Ok::<QObject, Error>(constructed_object(k.qtype, e)),
{
    let k1 = with_value(k, inserted(k, pos, e).unwrap());
    match k.value {
        QValue::Text(s) => assert(k1.value->Text_0[pos] == e->Char_0),
        QValue::Bytes(s) => assert(k1.value->Bytes_0[pos] == inserted(k, pos, e).unwrap()->Bytes_0[pos]),
        _ => {},
    }
}

/// `get_column` and `get_mut_column` find the same column under a name: in a table, the column
/// of that name; in a keyed table, the key column of that name, else the value column of that
/// name. A name that neither finds is a name of neither the key nor the value table.
pub proof fn law_column_lookup_agrees(k: K, name: Seq<char>)
    requires
        k.qtype == qtype::TABLE ==> k.value is Table,
        k.qtype == qtype::DICTIONARY ==> (k.value matches KValue::List(KList::Compound(kv)) && kv@.len()
            >= 2 && kv@[0].qtype == qtype::TABLE && kv@[0].value is Table && kv@[1].qtype
            == qtype::TABLE && kv@[1].value is Table),
    ensures
        match mutable_column_place(k, name) {
            Some((part, i)) => column_lookup(k, name) == Some(
                if k.qtype == qtype::TABLE {
                    column_objects(*k.value->Table_0)[i]
                } else {
                    column_objects(*k.value->List_0->Compound_0@[part].value->Table_0)[i]
                },
            ),
            None => column_lookup(k, name) is None,
        },
        k.qtype == qtype::DICTIONARY ==> (column_lookup(k, name) is None <==> (!has_name(
            header_names(*k.value->List_0->Compound_0@[0].value->Table_0),
            name,
        ) && !has_name(header_names(*k.value->List_0->Compound_0@[1].value->Table_0), name))),
{
    reveal_with_fuel(column_lookup, 2);
    if k.qtype == qtype::DICTIONARY {
        let kv = k.value->List_0->Compound_0@;
        assert(column_lookup(kv[0], name) == table_column(*kv[0].value->Table_0, name));
        assert(column_lookup(kv[1], name) == table_column(
            *kv[1].value->Table_0,
            name,
        ));
    }
}

/// Whether two list values hold the same item at `pos`.
pub open spec fn same_item(v1: QValue, v2: QValue, pos: int) -> bool {
    match (v1, v2) {
        (QValue::Text(a), QValue::Text(b)) => 0 <= pos < a.len() && pos < b.len() && a[pos] == b[pos],
        (QValue::Bytes(a), QValue::Bytes(b)) => 0 <= pos < a.len() && pos < b.len() && a[pos] == b[pos],
        (QValue::Guids(a), QValue::Guids(b)) => 0 <= pos < a.len() && pos < b.len() && a[pos] == b[pos],
        (QValue::Shorts(a), QValue::Shorts(b)) => 0 <= pos < a.len() && pos < b.len() && a[pos] == b[pos],
        (QValue::Ints(a), QValue::Ints(b)) => 0 <= pos < a.len() && pos < b.len() && a[pos] == b[pos],
        (QValue::Longs(a), QValue::Longs(b)) => 0 <= pos < a.len() && pos < b.len() && a[pos] == b[pos],
        (QValue::Reals(a), QValue::Reals(b)) => 0 <= pos < a.len() && pos < b.len() && a[pos] == b[pos],
        (QValue::Floats(a), QValue::Floats(b)) => 0 <= pos < a.len() && pos < b.len() && a[pos] == b[pos],
        (QValue::Symbols(a), QValue::Symbols(b)) => 0 <= pos < a.len() && pos < b.len() && a[pos]
            == b[pos],
        (QValue::Objects(a), QValue::Objects(b)) => 0 <= pos < a.len() && pos < b.len() && a[pos]
            == b[pos],
        _ => false,
    }
}

/// What `remove` gives of a list depends on the item at the position alone: two lists of one
/// type that hold the same item there give the same object, whatever their other items and
/// their lengths.
pub proof fn law_remove_depends_on_item(k1: QObject, k2: QObject, pos: int)
    requires
        k1.qtype == k2.qtype,
        same_item(k1.value, k2.value, pos),
    ensures
        removed_object(k1, pos) == removed_object(k2, pos),
{
}

/// A name that stands at `i` has a first place, at or before `i`.
proof fn lemma_first_place(names: Seq<Seq<char>>, name: Seq<char>, i: int)
    requires
        0 <= i < names.len(),
        names[i] == name,
    ensures
        exists|f: int| is_first_index(names, name, f),
    decreases i,
{
    if exists|j: int| 0 <= j < i && names[j] == name {
        let j = choose|j: int| 0 <= j < i && names[j] == name;
        lemma_first_place(names, name, j);
    } else {
        assert(is_first_index(names, name, i));
    }
}

/// The first position of a name that a sequence of names holds is where `first_index` says.
proof fn lemma_first_index(names: Seq<Seq<char>>, name: Seq<char>)
    requires
        has_name(names, name),
    ensures
        is_first_index(names, name, first_index(names, name)),
{
    let i = choose|i: int| 0 <= i < names.len() && names[i] == name;
    lemma_first_place(names, name, i);
}

/// The column that a table gives under a name stands under that name, at its first place
/// among the names: no column before it has the name.
pub proof fn law_table_column_named(d: K, name: Seq<char>)
    ensures
        table_column(d, name) matches Some(c) ==> exists|i: int|
            #![trigger header_names(d)[i]]
            is_first_index(header_names(d), name, i) && column_objects(d)[i] == c,
        table_column(d, name) is None <==> !has_name(header_names(d), name),
{
    if has_name(header_names(d), name) {
        lemma_first_index(header_names(d), name);
        let i = first_index(header_names(d), name);
        assert(header_names(d)[i] == name);
    }
}

/// The wrong-element error of `insert` says insert, that of `push` says push, and both name
/// the list that refused the element and the type it takes.
pub proof fn law_wrong_element_errors(t: i8)
    requires
        is_list_type(t),
    ensures
        insert_error(t) matches Error::InsertWrongElement { is_insert, destination, expected }
            && is_insert && destination == type_label(t) && push_error(t)
            == (Error::InsertWrongElement { is_insert: false, destination, expected }),
{
}

} // verus!
