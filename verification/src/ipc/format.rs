//! The q text of q objects, as the q console prints them. Reals, floats and datetimes are left
//! as glyphs that carry their bit patterns, for the caller to print in decimal.

use super::calendar::{civil_of, Date, DateTime, NANOS_PER_DAY};
use super::error::Error;
use super::list::text_len;
use super::object::{
    is_int_atom_type, is_long_atom_type, lemma_compound_model, models, texts, KList, KValue, QObject,
    QValue, K,
};
use super::qtime::{KDB_DAY_OFFSET, KDB_TIMESTAMP_OFFSET, ONE_DAY_NANOS};
use super::text::{
    digits, glyphs, hex2, int_text, lemma_glyphs_concat, padded, push_char, push_digits, push_hex2,
    push_int, push_padded, push_str, Glyph,
};
use crate::{qattribute, qinf_base, qninf_base, qnull_base, qtype};
use vstd::prelude::*;

verus! {

//%% Atoms %%//vvvvvvvvvvvvvvvvvvvvvvvvvvvvvvvvvvvvvvvvv/

/// The text of a special value of an integer type: null, infinity and negative infinity.
pub open spec fn special_text(x: int, null: int, inf: int) -> Option<Seq<char>> {
    if x == null {
        Some(seq!['0', 'N'])
    } else if x == inf {
        Some(seq!['0', 'W'])
    } else if x == -inf {
        Some(seq!['-', '0', 'W'])
    } else {
        None
    }
}

/// The text of an integer of a type whose null is `null` and whose infinity is `inf`.
pub open spec fn integer_text(x: int, null: int, inf: int) -> Seq<Glyph> {
    match special_text(x, null, inf) {
        Some(t) => glyphs(t),
        None => glyphs(int_text(x)),
    }
}

/// The text of a bool.
pub open spec fn bool_text(b: u8) -> Seq<Glyph> {
    glyphs(
        if b == 0 {
            seq!['0']
        } else {
            seq!['1']
        },
    )
}

/// Hexadecimal digits of the bytes `from` to `to` of a GUID.
pub open spec fn hex_run(g: [u8; 16], from: int, to: int) -> Seq<char>
    decreases to - from,
{
    if from >= to {
        Seq::empty()
    } else {
        hex_run(g, from, to - 1) + hex2(g[to - 1])
    }
}

/// The text of a GUID: its 32 hexadecimal digits in groups of 8, 4, 4, 4 and 12.
pub open spec fn guid_text(g: [u8; 16]) -> Seq<Glyph> {
    glyphs(
        hex_run(g, 0, 4) + seq!['-'] + hex_run(g, 4, 6) + seq!['-'] + hex_run(g, 6, 8) + seq!['-']
            + hex_run(g, 8, 10) + seq!['-'] + hex_run(g, 10, 16),
    )
}

/// Whether the bit pattern of an `f32` is a NaN.
pub open spec fn real_is_nan(bits: u32) -> bool {
    (bits & 0x7f80_0000) == 0x7f80_0000 && (bits & 0x007f_ffff) != 0
}

/// Whether the bit pattern of an `f64` is a NaN.
pub open spec fn float_is_nan(bits: u64) -> bool {
    (bits & 0x7ff0_0000_0000_0000) == 0x7ff0_0000_0000_0000 && (bits & 0x000f_ffff_ffff_ffff) != 0
}

/// The text of a real: null and infinities spelled out, any other value left as a glyph.
pub open spec fn real_text(bits: u32) -> Seq<Glyph> {
    if real_is_nan(bits) {
        glyphs(seq!['0', 'N'])
    } else if bits == 0x7f80_0000 {
        glyphs(seq!['0', 'W'])
    } else if bits == 0xff80_0000 {
        glyphs(seq!['-', '0', 'W'])
    } else {
        seq![Glyph::Real(bits)]
    }
}

/// The text of a float: null and infinities spelled out, any other value left as a glyph.
pub open spec fn float_text(bits: u64) -> Seq<Glyph> {
    if float_is_nan(bits) {
        glyphs(seq!['0', 'n'])
    } else if bits == 0xfff0_0000_0000_0000 {
        glyphs(seq!['-', '0', 'w'])
    } else if bits == 0x7ff0_0000_0000_0000 {
        glyphs(seq!['0', 'w'])
    } else {
        seq![Glyph::Float(bits)]
    }
}

/// Whether a datetime, by the bit pattern of its `f64`, is a special value (null or infinite).
pub open spec fn datetime_special(bits: u64) -> bool {
    float_is_nan(bits) || bits == 0xfff0_0000_0000_0000 || bits == 0x7ff0_0000_0000_0000
}

/// The text of a datetime: null and infinities spelled out, any other value left as a glyph.
pub open spec fn datetime_text(bits: u64) -> Seq<Glyph> {
    if float_is_nan(bits) {
        glyphs(seq!['0', 'N'])
    } else if bits == 0xfff0_0000_0000_0000 {
        glyphs(seq!['-', '0', 'W'])
    } else if bits == 0x7ff0_0000_0000_0000 {
        glyphs(seq!['0', 'W'])
    } else {
        seq![Glyph::Datetime(bits)]
    }
}

/// The text of a symbol: a backtick and its characters.
pub open spec fn symbol_text(s: Seq<char>) -> Seq<Glyph> {
    glyphs(seq!['`'] + s)
}

/// The text of a year: four digits, with a sign outside 0 to 9999.
pub open spec fn year_text(y: int) -> Seq<char> {
    if 0 <= y <= 9999 {
        padded(y as nat, 4)
    } else if y < 0 {
        seq!['-'] + padded((-y) as nat, 4)
    } else {
        seq!['+'] + padded(y as nat, 4)
    }
}

/// The text of the date `days` days after 1970-01-01: `YYYY.MM.DD`.
pub open spec fn date_of_days_text(days: int) -> Seq<char> {
    let (y, m, d) = civil_of(days);
    year_text(y) + seq!['.'] + padded(m as nat, 2) + seq!['.'] + padded(d as nat, 2)
}

/// The text of a time of day given in nanoseconds: `HH:MM:SS.nnnnnnnnn`.
pub open spec fn time_of_day_text(nanos: int) -> Seq<char> {
    padded((nanos / 3_600_000_000_000) as nat, 2) + seq![':'] + padded(
        ((nanos / 60_000_000_000) % 60) as nat,
        2,
    ) + seq![':'] + padded(((nanos / 1_000_000_000) % 60) as nat, 2) + seq!['.'] + padded(
        (nanos % 1_000_000_000) as nat,
        9,
    )
}

/// The text of a timestamp that is not special: `YYYY.MM.DDDHH:MM:SS.nnnnnnnnn`.
pub open spec fn timestamp_value_text(n: i64) -> Seq<char> {
    let t = n + KDB_TIMESTAMP_OFFSET;
    date_of_days_text(t / NANOS_PER_DAY as int) + seq!['D'] + time_of_day_text(t % NANOS_PER_DAY as int)
}

/// The text of a timestamp.
pub open spec fn timestamp_text(n: i64) -> Seq<Glyph> {
    match special_text(n as int, qnull_base::J as int, qinf_base::J as int) {
        Some(t) => glyphs(t),
        None => glyphs(timestamp_value_text(n)),
    }
}

/// The text of a month that is not special: the year and the month of the year, `YYYY.MM`.
pub open spec fn month_value_text(m: i32) -> Seq<char> {
    int_text(2000 + m / 12) + seq!['.'] + padded((1 + m % 12) as nat, 2)
}

/// The text of a month (without its type suffix).
pub open spec fn month_text(m: i32) -> Seq<Glyph> {
    match special_text(m as int, qnull_base::I as int, qinf_base::I as int) {
        Some(t) => glyphs(t),
        None => glyphs(month_value_text(m)),
    }
}

/// Whether a date can be printed: its time in nanoseconds fits an `i64`.
pub open spec fn date_printable(days: i32) -> bool {
    special_text(days as int, qnull_base::I as int, qinf_base::I as int) is Some || (i32::MIN
        <= days + KDB_DAY_OFFSET <= i32::MAX && i64::MIN <= ONE_DAY_NANOS * (days + KDB_DAY_OFFSET)
        <= i64::MAX)
}

/// The text of a date.
pub open spec fn date_text(days: i32) -> Seq<Glyph> {
    match special_text(days as int, qnull_base::I as int, qinf_base::I as int) {
        Some(t) => glyphs(t),
        None => glyphs(date_of_days_text(days + KDB_DAY_OFFSET)),
    }
}

/// The text of a timespan that is not special: `[-]DDDHH:MM:SS.nnnnnnnnn`.
pub open spec fn timespan_value_text(n: i64) -> Seq<char> {
    let a: int = if n < 0 {
        -n
    } else {
        n as int
    };
    (if n < 0 {
        seq!['-']
    } else {
        Seq::empty()
    }) + digits((a / 86_400_000_000_000) as nat) + seq!['D'] + padded(
        ((a / 3_600_000_000_000) % 24) as nat,
        2,
    ) + seq![':'] + padded(((a / 60_000_000_000) % 60) as nat, 2) + seq![':'] + padded(
        ((a / 1_000_000_000) % 60) as nat,
        2,
    ) + seq!['.'] + padded((a % 1_000_000_000) as nat, 9)
}

/// The text of a timespan.
pub open spec fn timespan_text(n: i64) -> Seq<Glyph> {
    match special_text(n as int, qnull_base::J as int, qinf_base::J as int) {
        Some(t) => glyphs(t),
        None => glyphs(timespan_value_text(n)),
    }
}

/// The text of a minute that is not special: `[-]HH:MM`.
pub open spec fn minute_value_text(m: i32) -> Seq<char> {
    let a: int = if m < 0 {
        -m
    } else {
        m as int
    };
    (if m < 0 {
        seq!['-']
    } else {
        Seq::empty()
    }) + padded(((a / 60) % 24) as nat, 2) + seq![':'] + padded((a % 60) as nat, 2)
}

/// The text of a minute.
pub open spec fn minute_text(m: i32) -> Seq<Glyph> {
    match special_text(m as int, qnull_base::I as int, qinf_base::I as int) {
        Some(t) => glyphs(t),
        None => glyphs(minute_value_text(m)),
    }
}

/// The text of a second that is not special: `[-]HH:MM:SS`.
pub open spec fn second_value_text(s: i32) -> Seq<char> {
    let a: int = if s < 0 {
        -s
    } else {
        s as int
    };
    (if s < 0 {
        seq!['-']
    } else {
        Seq::empty()
    }) + padded(((a / 3600) % 24) as nat, 2) + seq![':'] + padded(((a / 60) % 60) as nat, 2)
        + seq![':'] + padded((a % 60) as nat, 2)
}

/// The text of a second.
pub open spec fn second_text(s: i32) -> Seq<Glyph> {
    match special_text(s as int, qnull_base::I as int, qinf_base::I as int) {
        Some(t) => glyphs(t),
        None => glyphs(second_value_text(s)),
    }
}

/// The text of a time that is not special: `[-]HH:MM:SS.mmm`.
pub open spec fn time_value_text(t: i32) -> Seq<char> {
    let a: int = if t < 0 {
        -t
    } else {
        t as int
    };
    (if t < 0 {
        seq!['-']
    } else {
        Seq::empty()
    }) + padded(((a / 3_600_000) % 24) as nat, 2) + seq![':'] + padded(
        ((a / 60_000) % 60) as nat,
        2,
    ) + seq![':'] + padded(((a / 1000) % 60) as nat, 2) + seq!['.'] + padded((a % 1000) as nat, 3)
}

/// The text of a time.
pub open spec fn time_text(t: i32) -> Seq<Glyph> {
    match special_text(t as int, qnull_base::I as int, qinf_base::I as int) {
        Some(x) => glyphs(x),
        None => glyphs(time_value_text(t)),
    }
}

/// The text of an attribute: `` `s# ``, `` `p# ``, `` `u# ``, `` `g# `` or nothing.
pub open spec fn attribute_text(a: i8) -> Seq<Glyph> {
    if a == qattribute::SORTED {
        glyphs(seq!['`', 's', '#'])
    } else if a == qattribute::PARTED {
        glyphs(seq!['`', 'p', '#'])
    } else if a == qattribute::UNIQUE {
        glyphs(seq!['`', 'u', '#'])
    } else if a == qattribute::GROUPED {
        glyphs(seq!['`', 'g', '#'])
    } else {
        Seq::empty()
    }
}

//%% Writing atoms %%//vvvvvvvvvvvvvvvvvvvvvvvvvvvvvvvvvv/

/// Append two characters.
fn push_chars2(out: &mut Vec<Glyph>, a: char, b: char)
    ensures
        final(out)@ == old(out)@ + glyphs(seq![a, b]),
{
    push_char(out, a);
    push_char(out, b);
    proof {
        assert(seq![a, b] =~= seq![a] + seq![b]);
        lemma_glyphs_concat(seq![a], seq![b]);
    }
}

/// Append three characters.
fn push_chars3(out: &mut Vec<Glyph>, a: char, b: char, c: char)
    ensures
        final(out)@ == old(out)@ + glyphs(seq![a, b, c]),
{
    push_char(out, a);
    push_chars2(out, b, c);
    proof {
        assert(seq![a, b, c] =~= seq![a] + seq![b, c]);
        lemma_glyphs_concat(seq![a], seq![b, c]);
    }
}

/// Append the text of a special value of an integer type, if `x` is one.
fn push_special(out: &mut Vec<Glyph>, x: i64, null: i64, inf: i64) -> (special: bool)
    requires
        inf > 0,
    ensures
        special == (special_text(x as int, null as int, inf as int) is Some),
        special ==> final(out)@ == old(out)@ + glyphs(special_text(x as int, null as int, inf as int).unwrap()),
        !special ==> final(out)@ == old(out)@,
{
    if x == null {
        push_chars2(out, '0', 'N');
        true
    } else if x == inf {
        push_chars2(out, '0', 'W');
        true
    } else if x == -inf {
        push_chars3(out, '-', '0', 'W');
        true
    } else {
        false
    }
}

/// Append the text of a bool.
pub fn put_bool(boolean: u8, out: &mut Vec<Glyph>)
    ensures
        final(out)@ == old(out)@ + bool_text(boolean),
{
    push_char(
        out,
        if boolean == 0 {
            '0'
        } else {
            '1'
        },
    );
}

/// Append hexadecimal digits of the bytes `from` to `to` of a GUID.
fn push_hex_run(out: &mut Vec<Glyph>, g: &[u8; 16], from: usize, to: usize)
    requires
        from <= to <= 16,
    ensures
        final(out)@ == old(out)@ + glyphs(hex_run(*g, from as int, to as int)),
{
    let ghost start = out@;
    let mut i: usize = from;
    proof {
        assert(hex_run(*g, from as int, from as int) =~= Seq::<char>::empty());
        assert(out@ =~= start + glyphs(hex_run(*g, from as int, i as int)));
    }
    while i < to
        invariant
            from <= i <= to <= 16,
            out@ == start + glyphs(hex_run(*g, from as int, i as int)),
        decreases to - i,
    {
        push_hex2(out, g[i]);
        proof {
            lemma_glyphs_concat(hex_run(*g, from as int, i as int), hex2(g[i as int]));
            assert(hex_run(*g, from as int, i + 1) == hex_run(*g, from as int, i as int) + hex2(
                g[i as int],
            ));
        }
        i += 1;
    }
}

/// Append the text of a GUID.
pub fn put_guid(guid: [u8; 16], out: &mut Vec<Glyph>)
    ensures
        final(out)@ == old(out)@ + guid_text(guid),
{
    let ghost dash = seq!['-'];
    push_hex_run(out, &guid, 0, 4);
    push_char(out, '-');
    push_hex_run(out, &guid, 4, 6);
    push_char(out, '-');
    push_hex_run(out, &guid, 6, 8);
    push_char(out, '-');
    push_hex_run(out, &guid, 8, 10);
    push_char(out, '-');
    push_hex_run(out, &guid, 10, 16);
    proof {
        let a = hex_run(guid, 0, 4);
        let b = hex_run(guid, 4, 6);
        let c = hex_run(guid, 6, 8);
        let d = hex_run(guid, 8, 10);
        let e = hex_run(guid, 10, 16);
        lemma_glyphs_concat(a, dash);
        lemma_glyphs_concat(a + dash, b);
        lemma_glyphs_concat(a + dash + b, dash);
        lemma_glyphs_concat(a + dash + b + dash, c);
        lemma_glyphs_concat(a + dash + b + dash + c, dash);
        lemma_glyphs_concat(a + dash + b + dash + c + dash, d);
        lemma_glyphs_concat(a + dash + b + dash + c + dash + d, dash);
        lemma_glyphs_concat(a + dash + b + dash + c + dash + d + dash, e);
        assert(out@ =~= old(out)@ + guid_text(guid));
    }
}


/// Append the text of a byte (without its `0x` prefix).
pub fn put_byte(byte: u8, out: &mut Vec<Glyph>)
    ensures
        final(out)@ == old(out)@ + glyphs(hex2(byte)),
{
    push_hex2(out, byte);
}

/// Append the text of an integer of a type whose null is `null` and whose infinity is `inf`.
fn put_integer(x: i64, null: i64, inf: i64, out: &mut Vec<Glyph>)
    requires
        inf > 0,
    ensures
        final(out)@ == old(out)@ + integer_text(x as int, null as int, inf as int),
{
    if !push_special(out, x, null, inf) {
        push_int(out, x);
    }
}

/// Append the text of a short.
pub fn put_short(short: i16, out: &mut Vec<Glyph>)
    ensures
        final(out)@ == old(out)@ + integer_text(short as int, qnull_base::H as int, qinf_base::H as int),
{
    put_integer(short as i64, qnull_base::H as i64, qinf_base::H as i64, out);
}

/// Append the text of an int.
pub fn put_int(int_value: i32, out: &mut Vec<Glyph>)
    ensures
        final(out)@ == old(out)@ + integer_text(int_value as int, qnull_base::I as int, qinf_base::I as int),
{
    put_integer(int_value as i64, qnull_base::I as i64, qinf_base::I as i64, out);
}

/// Append the text of a long.
pub fn put_long(long: i64, out: &mut Vec<Glyph>)
    ensures
        final(out)@ == old(out)@ + integer_text(long as int, qnull_base::J as int, qinf_base::J as int),
{
    put_integer(long, qnull_base::J, qinf_base::J, out);
}

/// Append the text of a real, given by its bit pattern.
pub fn put_real(real_value: u32, out: &mut Vec<Glyph>)
    ensures
        final(out)@ == old(out)@ + real_text(real_value),
{
    if (real_value & 0x7f80_0000) == 0x7f80_0000 && (real_value & 0x007f_ffff) != 0 {
        push_chars2(out, '0', 'N');
    } else if real_value == 0x7f80_0000 {
        push_chars2(out, '0', 'W');
    } else if real_value == 0xff80_0000 {
        push_chars3(out, '-', '0', 'W');
    } else {
        out.push(Glyph::Real(real_value));
    }
}

/// Append the text of a float, given by its bit pattern.
pub fn put_float(float: u64, out: &mut Vec<Glyph>)
    ensures
        final(out)@ == old(out)@ + float_text(float),
{
    if (float & 0x7ff0_0000_0000_0000) == 0x7ff0_0000_0000_0000 && (float & 0x000f_ffff_ffff_ffff)
        != 0 {
        push_chars2(out, '0', 'n');
    } else if float == 0xfff0_0000_0000_0000 {
        push_chars3(out, '-', '0', 'w');
    } else if float == 0x7ff0_0000_0000_0000 {
        push_chars2(out, '0', 'w');
    } else {
        out.push(Glyph::Float(float));
    }
}

/// Append the text of a datetime, given by the bit pattern of its `f64`; tells whether it is a
/// special value.
pub fn put_datetime(days: u64, out: &mut Vec<Glyph>) -> (special: bool)
    ensures
        special == datetime_special(days),
        final(out)@ == old(out)@ + datetime_text(days),
{
    if (days & 0x7ff0_0000_0000_0000) == 0x7ff0_0000_0000_0000 && (days & 0x000f_ffff_ffff_ffff)
        != 0 {
        push_chars2(out, '0', 'N');
        true
    } else if days == 0xfff0_0000_0000_0000 {
        push_chars3(out, '-', '0', 'W');
        true
    } else if days == 0x7ff0_0000_0000_0000 {
        push_chars2(out, '0', 'W');
        true
    } else {
        out.push(Glyph::Datetime(days));
        false
    }
}

/// Append the text of a symbol.
pub fn put_symbol(symbol: &str, out: &mut Vec<Glyph>)
    ensures
        final(out)@ == old(out)@ + symbol_text(symbol@),
{
    push_char(out, '`');
    push_str(out, symbol);
    proof {
        lemma_glyphs_concat(seq!['`'], symbol@);
    }
}

/// Append the text of a year.
fn put_year(year: i32, out: &mut Vec<Glyph>)
    ensures
        final(out)@ == old(out)@ + glyphs(year_text(year as int)),
{
    if 0 <= year && year <= 9999 {
        push_padded(out, year as u64, 4);
    } else if year < 0 {
        push_char(out, '-');
        push_padded(out, (-(year as i64)) as u64, 4);
        proof {
            lemma_glyphs_concat(seq!['-'], padded((-year) as nat, 4));
        }
    } else {
        push_char(out, '+');
        push_padded(out, year as u64, 4);
        proof {
            lemma_glyphs_concat(seq!['+'], padded(year as nat, 4));
        }
    }
}

/// Append the text of a date: `YYYY.MM.DD`.
fn put_civil_date(date: Date, out: &mut Vec<Glyph>)
    ensures
        final(out)@ == old(out)@ + glyphs(date_of_days_text(date@)),
{
    let (y, m, d) = date.ymd();
    put_year(y, out);
    push_char(out, '.');
    push_padded(out, m as u64, 2);
    push_char(out, '.');
    push_padded(out, d as u64, 2);
    proof {
        let a = year_text(y as int);
        let b = padded(m as nat, 2);
        let c = padded(d as nat, 2);
        let dot = seq!['.'];
        lemma_glyphs_concat(a, dot);
        lemma_glyphs_concat(a + dot, b);
        lemma_glyphs_concat(a + dot + b, dot);
        lemma_glyphs_concat(a + dot + b + dot, c);
        assert(out@ =~= old(out)@ + glyphs(date_of_days_text(date@)));
    }
}

/// Append the text of a time of day given in nanoseconds: `HH:MM:SS.nnnnnnnnn`.
fn put_time_of_day(nanos: u64, out: &mut Vec<Glyph>)
    requires
        nanos < 86_400_000_000_000,
    ensures
        final(out)@ == old(out)@ + glyphs(time_of_day_text(nanos as int)),
{
    push_padded(out, nanos / 3_600_000_000_000, 2);
    push_char(out, ':');
    push_padded(out, (nanos / 60_000_000_000) % 60, 2);
    push_char(out, ':');
    push_padded(out, (nanos / 1_000_000_000) % 60, 2);
    push_char(out, '.');
    push_padded(out, nanos % 1_000_000_000, 9);
    proof {
        let n = nanos as int;
        let a = padded((n / 3_600_000_000_000) as nat, 2);
        let b = padded(((n / 60_000_000_000) % 60) as nat, 2);
        let c = padded(((n / 1_000_000_000) % 60) as nat, 2);
        let d = padded((n % 1_000_000_000) as nat, 9);
        let colon = seq![':'];
        let dot = seq!['.'];
        lemma_glyphs_concat(a, colon);
        lemma_glyphs_concat(a + colon, b);
        lemma_glyphs_concat(a + colon + b, colon);
        lemma_glyphs_concat(a + colon + b + colon, c);
        lemma_glyphs_concat(a + colon + b + colon + c, dot);
        lemma_glyphs_concat(a + colon + b + colon + c + dot, d);
        assert(out@ =~= old(out)@ + glyphs(time_of_day_text(nanos as int)));
    }
}

/// Append the text of a timestamp; tells whether it is a special value.
pub fn put_timestamp(nanos: i64, out: &mut Vec<Glyph>) -> (special: bool)
    ensures
        special == (special_text(nanos as int, qnull_base::J as int, qinf_base::J as int) is Some),
        final(out)@ == old(out)@ + timestamp_text(nanos),
{
    if push_special(out, nanos, qnull_base::J, qinf_base::J) {
        return true;
    }
    let datetime = super::qtime::q_timestamp_to_datetime(nanos);
    let date = datetime.date();
    let ghost t: int = nanos + KDB_TIMESTAMP_OFFSET;
    put_civil_date(date, out);
    push_char(out, 'D');
    let tod: i128 = datetime.timestamp_nanos() - (date.num_days_from_epoch() as i128) * NANOS_PER_DAY;
    proof {
        assert(t == (t / NANOS_PER_DAY as int) * NANOS_PER_DAY + t % NANOS_PER_DAY as int);
    }
    put_time_of_day(tod as u64, out);
    proof {
        let a = date_of_days_text(t / NANOS_PER_DAY as int);
        let b = time_of_day_text(t % NANOS_PER_DAY as int);
        lemma_glyphs_concat(a, seq!['D']);
        lemma_glyphs_concat(a + seq!['D'], b);
        assert(out@ =~= old(out)@ + timestamp_text(nanos));
    }
    false
}

/// Append the text of a month (without its type suffix).
fn put_month(months: i32, out: &mut Vec<Glyph>)
    ensures
        final(out)@ == old(out)@ + month_text(months),
{
    if push_special(out, months as i64, qnull_base::I as i64, qinf_base::I as i64) {
        return;
    }
    let ghost start = out@;
    let (year, month): (i64, u64) = if months < 0 {
        let a: i64 = -(months as i64);
        let years: i64 = (a + 11) / 12;
        proof {
            assert(months / 12 == -years && months % 12 == 12 * years - a) by (nonlinear_arith)
                requires
                    a == -months,
                    a > 0,
                    years == (a + 11) / 12,
            ;
        }
        (2000 - years, (12 * years - a + 1) as u64)
    } else {
        (2000 + (months / 12) as i64, (1 + months % 12) as u64)
    };
    push_int(out, year);
    push_char(out, '.');
    push_padded(out, month, 2);
    proof {
        let a = int_text(year as int);
        let b = padded(month as nat, 2);
        lemma_glyphs_concat(a, seq!['.']);
        lemma_glyphs_concat(a + seq!['.'], b);
        assert(out@ =~= old(out)@ + month_text(months));
    }
}

/// Append the text of a date; tells whether it is a special value.
fn put_date(days: i32, out: &mut Vec<Glyph>) -> (special: bool)
    requires
        date_printable(days),
    ensures
        special == (special_text(days as int, qnull_base::I as int, qinf_base::I as int) is Some),
        final(out)@ == old(out)@ + date_text(days),
{
    if push_special(out, days as i64, qnull_base::I as i64, qinf_base::I as i64) {
        return true;
    }
    let d: i32 = days + KDB_DAY_OFFSET;
    match Date::from_days(d) {
        Some(date) => put_civil_date(date, out),
        None => {
            proof {
                assert(false);
            }
        },
    }
    false
}

/// Append a minus sign if `negative`.
fn push_sign(out: &mut Vec<Glyph>, negative: bool)
    ensures
        final(out)@ == old(out)@ + glyphs(
            if negative {
                seq!['-']
            } else {
                Seq::empty()
            },
        ),
{
    if negative {
        push_char(out, '-');
    } else {
        proof {
            assert(glyphs(Seq::<char>::empty()) =~= Seq::<Glyph>::empty());
            assert(out@ =~= old(out)@ + Seq::<Glyph>::empty());
        }
    }
}

/// Append the text of a timespan; tells whether it is a special value.
fn put_timespan(nanos: i64, out: &mut Vec<Glyph>) -> (special: bool)
    ensures
        special == (special_text(nanos as int, qnull_base::J as int, qinf_base::J as int) is Some),
        final(out)@ == old(out)@ + timespan_text(nanos),
{
    if push_special(out, nanos, qnull_base::J, qinf_base::J) {
        return true;
    }
    let a: u64 = if nanos < 0 {
        (-nanos) as u64
    } else {
        nanos as u64
    };
    push_sign(out, nanos < 0);
    push_digits(out, a / 86_400_000_000_000);
    push_char(out, 'D');
    push_padded(out, (a / 3_600_000_000_000) % 24, 2);
    push_char(out, ':');
    push_padded(out, (a / 60_000_000_000) % 60, 2);
    push_char(out, ':');
    push_padded(out, (a / 1_000_000_000) % 60, 2);
    push_char(out, '.');
    push_padded(out, a % 1_000_000_000, 9);
    proof {
        let n = a as int;
        let s: Seq<char> = if nanos < 0 {
            seq!['-']
        } else {
            Seq::empty()
        };
        let b = digits((n / 86_400_000_000_000) as nat);
        let c = padded(((n / 3_600_000_000_000) % 24) as nat, 2);
        let d = padded(((n / 60_000_000_000) % 60) as nat, 2);
        let e = padded(((n / 1_000_000_000) % 60) as nat, 2);
        let f = padded((n % 1_000_000_000) as nat, 9);
        lemma_glyphs_concat(s, b);
        lemma_glyphs_concat(s + b, seq!['D']);
        lemma_glyphs_concat(s + b + seq!['D'], c);
        lemma_glyphs_concat(s + b + seq!['D'] + c, seq![':']);
        lemma_glyphs_concat(s + b + seq!['D'] + c + seq![':'], d);
        lemma_glyphs_concat(s + b + seq!['D'] + c + seq![':'] + d, seq![':']);
        lemma_glyphs_concat(s + b + seq!['D'] + c + seq![':'] + d + seq![':'], e);
        lemma_glyphs_concat(s + b + seq!['D'] + c + seq![':'] + d + seq![':'] + e, seq!['.']);
        lemma_glyphs_concat(
            s + b + seq!['D'] + c + seq![':'] + d + seq![':'] + e + seq!['.'],
            f,
        );
        assert(out@ =~= old(out)@ + timespan_text(nanos));
    }
    false
}

/// Append the text of a minute; tells whether it is a special value.
fn put_minute(minutes: i32, out: &mut Vec<Glyph>) -> (special: bool)
    ensures
        special == (special_text(minutes as int, qnull_base::I as int, qinf_base::I as int) is Some),
        final(out)@ == old(out)@ + minute_text(minutes),
{
    if push_special(out, minutes as i64, qnull_base::I as i64, qinf_base::I as i64) {
        return true;
    }
    let a: u64 = if minutes < 0 {
        (-minutes) as u64
    } else {
        minutes as u64
    };
    push_sign(out, minutes < 0);
    push_padded(out, (a / 60) % 24, 2);
    push_char(out, ':');
    push_padded(out, a % 60, 2);
    proof {
        let n = a as int;
        let s: Seq<char> = if minutes < 0 {
            seq!['-']
        } else {
            Seq::empty()
        };
        let b = padded(((n / 60) % 24) as nat, 2);
        let c = padded((n % 60) as nat, 2);
        lemma_glyphs_concat(s, b);
        lemma_glyphs_concat(s + b, seq![':']);
        lemma_glyphs_concat(s + b + seq![':'], c);
        assert(out@ =~= old(out)@ + minute_text(minutes));
    }
    false
}

/// Append the text of a second; tells whether it is a special value.
fn put_second(seconds: i32, out: &mut Vec<Glyph>) -> (special: bool)
    ensures
        special == (special_text(seconds as int, qnull_base::I as int, qinf_base::I as int) is Some),
        final(out)@ == old(out)@ + second_text(seconds),
{
    if push_special(out, seconds as i64, qnull_base::I as i64, qinf_base::I as i64) {
        return true;
    }
    let a: u64 = if seconds < 0 {
        (-seconds) as u64
    } else {
        seconds as u64
    };
    push_sign(out, seconds < 0);
    push_padded(out, (a / 3600) % 24, 2);
    push_char(out, ':');
    push_padded(out, (a / 60) % 60, 2);
    push_char(out, ':');
    push_padded(out, a % 60, 2);
    proof {
        let n = a as int;
        let s: Seq<char> = if seconds < 0 {
            seq!['-']
        } else {
            Seq::empty()
        };
        let b = padded(((n / 3600) % 24) as nat, 2);
        let c = padded(((n / 60) % 60) as nat, 2);
        let d = padded((n % 60) as nat, 2);
        lemma_glyphs_concat(s, b);
        lemma_glyphs_concat(s + b, seq![':']);
        lemma_glyphs_concat(s + b + seq![':'], c);
        lemma_glyphs_concat(s + b + seq![':'] + c, seq![':']);
        lemma_glyphs_concat(s + b + seq![':'] + c + seq![':'], d);
        assert(out@ =~= old(out)@ + second_text(seconds));
    }
    false
}

/// Append the text of a time; tells whether it is a special value.
fn put_time(millis: i32, out: &mut Vec<Glyph>) -> (special: bool)
    ensures
        special == (special_text(millis as int, qnull_base::I as int, qinf_base::I as int) is Some),
        final(out)@ == old(out)@ + time_text(millis),
{
    if push_special(out, millis as i64, qnull_base::I as i64, qinf_base::I as i64) {
        return true;
    }
    let a: u64 = if millis < 0 {
        (-millis) as u64
    } else {
        millis as u64
    };
    push_sign(out, millis < 0);
    push_padded(out, (a / 3_600_000) % 24, 2);
    push_char(out, ':');
    push_padded(out, (a / 60_000) % 60, 2);
    push_char(out, ':');
    push_padded(out, (a / 1000) % 60, 2);
    push_char(out, '.');
    push_padded(out, a % 1000, 3);
    proof {
        let n = a as int;
        let s: Seq<char> = if millis < 0 {
            seq!['-']
        } else {
            Seq::empty()
        };
        let b = padded(((n / 3_600_000) % 24) as nat, 2);
        let c = padded(((n / 60_000) % 60) as nat, 2);
        let d = padded(((n / 1000) % 60) as nat, 2);
        let e = padded((n % 1000) as nat, 3);
        lemma_glyphs_concat(s, b);
        lemma_glyphs_concat(s + b, seq![':']);
        lemma_glyphs_concat(s + b + seq![':'], c);
        lemma_glyphs_concat(s + b + seq![':'] + c, seq![':']);
        lemma_glyphs_concat(s + b + seq![':'] + c + seq![':'], d);
        lemma_glyphs_concat(s + b + seq![':'] + c + seq![':'] + d, seq!['.']);
        lemma_glyphs_concat(s + b + seq![':'] + c + seq![':'] + d + seq!['.'], e);
        assert(out@ =~= old(out)@ + time_text(millis));
    }
    false
}

/// Append the text of an attribute: `` `s# ``, `` `p# ``, `` `u# ``, `` `g# `` or nothing.
pub fn put_attribute(attribute: i8, out: &mut Vec<Glyph>)
    ensures
        final(out)@ == old(out)@ + attribute_text(attribute),
{
    if attribute == qattribute::SORTED {
        push_chars3(out, '`', 's', '#');
    } else if attribute == qattribute::PARTED {
        push_chars3(out, '`', 'p', '#');
    } else if attribute == qattribute::UNIQUE {
        push_chars3(out, '`', 'u', '#');
    } else if attribute == qattribute::GROUPED {
        push_chars3(out, '`', 'g', '#');
    } else {
        proof {
            assert(out@ =~= old(out)@ + Seq::<Glyph>::empty());
        }
    }
}

/// The text of a q string: its characters in double quotes, with a leading comma when it
/// is one byte long.
pub open spec fn string_text(s: Seq<char>) -> Seq<Glyph> {
    glyphs(
        (if text_len(s) == 1 {
            seq![',']
        } else {
            Seq::empty()
        }) + seq!['"'] + s + seq!['"'],
    )
}

/// Append the text of a q string.
pub fn put_string(string: &str, out: &mut Vec<Glyph>)
    ensures
        final(out)@ == old(out)@ + string_text(string@),
{
    let one = string.as_bytes().len() == 1;
    if one {
        push_char(out, ',');
    } else {
        proof {
            assert(glyphs(Seq::<char>::empty()) =~= Seq::<Glyph>::empty());
            assert(out@ =~= old(out)@ + glyphs(Seq::<char>::empty()));
        }
    }
    push_char(out, '"');
    push_str(out, string);
    push_char(out, '"');
    proof {
        let c: Seq<char> = if one {
            seq![',']
        } else {
            Seq::empty()
        };
        lemma_glyphs_concat(c, seq!['"']);
        lemma_glyphs_concat(c + seq!['"'], string@);
        lemma_glyphs_concat(c + seq!['"'] + string@, seq!['"']);
        assert(out@ =~= old(out)@ + string_text(string@));
    }
}

//%% Lists %%//vvvvvvvvvvvvvvvvvvvvvvvvvvvvvvvvvvvvvvvv/

/// Number of elements of a simple list (neither a string nor a compound list).
pub open spec fn simple_count(v: QValue) -> nat {
    match v {
        QValue::Bytes(s) => s.len(),
        QValue::Guids(s) => s.len(),
        QValue::Shorts(s) => s.len(),
        QValue::Ints(s) => s.len(),
        QValue::Longs(s) => s.len(),
        QValue::Reals(s) => s.len(),
        QValue::Floats(s) => s.len(),
        QValue::Symbols(s) => s.len(),
        _ => 0,
    }
}

/// Whether a value is that of a simple list.
pub open spec fn is_simple_list(v: QValue) -> bool {
    v is Bytes || v is Guids || v is Shorts || v is Ints || v is Longs || v is Reals || v is Floats
        || v is Symbols
}

/// The text of the element `i` of a simple list of type `t`.
pub open spec fn element_text(t: i8, v: QValue, i: int) -> Seq<Glyph> {
    match v {
        QValue::Bytes(b) => if t == qtype::BOOL_LIST {
            bool_text(b[i])
        } else {
            glyphs(hex2(b[i]))
        },
        QValue::Guids(g) => guid_text(g[i]),
        QValue::Shorts(x) => integer_text(x[i] as int, qnull_base::H as int, qinf_base::H as int),
        QValue::Ints(x) => if t == qtype::MONTH_LIST {
            month_text(x[i])
        } else if t == qtype::DATE_LIST {
            date_text(x[i])
        } else if t == qtype::MINUTE_LIST {
            minute_text(x[i])
        } else if t == qtype::SECOND_LIST {
            second_text(x[i])
        } else if t == qtype::TIME_LIST {
            time_text(x[i])
        } else {
            integer_text(x[i] as int, qnull_base::I as int, qinf_base::I as int)
        },
        QValue::Longs(x) => if t == qtype::TIMESTAMP_LIST {
            timestamp_text(x[i])
        } else if t == qtype::TIMESPAN_LIST {
            timespan_text(x[i])
        } else {
            integer_text(x[i] as int, qnull_base::J as int, qinf_base::J as int)
        },
        QValue::Reals(x) => real_text(x[i]),
        QValue::Floats(x) => if t == qtype::DATETIME_LIST {
            datetime_text(x[i])
        } else {
            float_text(x[i])
        },
        QValue::Symbols(s) => symbol_text(s[i]),
        _ => Seq::empty(),
    }
}

/// Whether the element `i` of a list of a temporal type `t` is a special value (null or
/// infinite); such a value needs the type's letter after it.
pub open spec fn element_special(t: i8, v: QValue, i: int) -> bool {
    match v {
        QValue::Ints(x) => t != qtype::INT_LIST && t != qtype::MONTH_LIST && special_text(
            x[i] as int,
            qnull_base::I as int,
            qinf_base::I as int,
        ) is Some,
        QValue::Longs(x) => t != qtype::LONG_LIST && special_text(
            x[i] as int,
            qnull_base::J as int,
            qinf_base::J as int,
        ) is Some,
        QValue::Floats(x) => t == qtype::DATETIME_LIST && datetime_special(x[i]),
        _ => false,
    }
}

/// What stands between two elements of a simple list of type `t`: a space, or nothing for
/// bools, bytes and symbols.
pub open spec fn separator(t: i8) -> Seq<Glyph> {
    if t == qtype::BOOL_LIST || t == qtype::BYTE_LIST || t == qtype::SYMBOL_LIST {
        Seq::empty()
    } else {
        glyphs(seq![' '])
    }
}

/// The texts of the first `n` elements of a simple list, separated by `sep`.
pub open spec fn elements_text(t: i8, v: QValue, n: nat, sep: Seq<Glyph>) -> Seq<Glyph>
    decreases n,
{
    if n == 0 {
        Seq::empty()
    } else if n == 1 {
        element_text(t, v, 0)
    } else {
        elements_text(t, v, (n - 1) as nat, sep) + sep + element_text(t, v, n - 1)
    }
}

/// The letter of the type `t`, where its lists or atoms carry one.
pub open spec fn type_letter(t: i8) -> Option<char> {
    let u = if t < 0 {
        -t
    } else {
        t as int
    };
    if u == 1 {
        Some('b')
    } else if u == 5 {
        Some('h')
    } else if u == 6 {
        Some('i')
    } else if u == 8 {
        Some('e')
    } else if u == 12 {
        Some('p')
    } else if u == 13 {
        Some('m')
    } else if u == 14 {
        Some('d')
    } else if u == 15 {
        Some('z')
    } else if u == 16 {
        Some('n')
    } else if u == 17 {
        Some('u')
    } else if u == 18 {
        Some('v')
    } else if u == 19 {
        Some('t')
    } else {
        None
    }
}

/// Whether the letter of the type `t` always follows its text; the letter of a temporal
/// type other than month follows only a special value.
pub open spec fn letter_always(t: i8) -> bool {
    let u = if t < 0 {
        -t
    } else {
        t as int
    };
    u == 1 || u == 5 || u == 6 || u == 8 || u == 13
}

/// The letter after a text of the type `t`, where the text ends with a special value or the
/// letter is always written.
pub open spec fn letter_text(t: i8, special: bool) -> Seq<Glyph> {
    match type_letter(t) {
        Some(c) => if letter_always(t) || special {
            glyphs(seq![c])
        } else {
            Seq::empty()
        },
        None => Seq::empty(),
    }
}

/// The text of an empty simple list of type `t`, such as `` `int$() ``.
pub open spec fn empty_list_text(t: i8) -> Seq<char> {
    if t == qtype::BOOL_LIST {
        "`bool$()"@
    } else if t == qtype::GUID_LIST {
        "`guid$()"@
    } else if t == qtype::BYTE_LIST {
        "`byte$()"@
    } else if t == qtype::SHORT_LIST {
        "`short$()"@
    } else if t == qtype::INT_LIST {
        "`int$()"@
    } else if t == qtype::LONG_LIST {
        "`long$()"@
    } else if t == qtype::REAL_LIST {
        "`real$()"@
    } else if t == qtype::FLOAT_LIST {
        "`float$()"@
    } else if t == qtype::SYMBOL_LIST {
        "`symbol$()"@
    } else if t == qtype::TIMESTAMP_LIST {
        "`timestamp$()"@
    } else if t == qtype::MONTH_LIST {
        "`month$()"@
    } else if t == qtype::DATE_LIST {
        "`date$()"@
    } else if t == qtype::DATETIME_LIST {
        "`datetime$()"@
    } else if t == qtype::TIMESPAN_LIST {
        "`timespan$()"@
    } else if t == qtype::MINUTE_LIST {
        "`minute$()"@
    } else if t == qtype::SECOND_LIST {
        "`second$()"@
    } else {
        "`time$()"@
    }
}

/// The text of a simple list of type `t` (without its attribute): the empty list by its type,
/// else a comma for a single element, `0x` before bytes, the elements and the type letter.
pub open spec fn simple_list_text(t: i8, v: QValue) -> Seq<Glyph> {
    let n = simple_count(v);
    if n == 0 {
        glyphs(empty_list_text(t))
    } else {
        (if n == 1 {
            glyphs(seq![','])
        } else {
            Seq::empty()
        }) + (if t == qtype::BYTE_LIST {
            glyphs(seq!['0', 'x'])
        } else {
            Seq::empty()
        }) + elements_text(t, v, n, separator(t)) + letter_text(t, element_special(t, v, n - 1))
    }
}

/// Whether a simple list of type `t` can be printed: its dates are printable.
pub open spec fn simple_list_printable(t: i8, v: QValue) -> bool {
    t == qtype::DATE_LIST ==> forall|i: int|
        0 <= i < simple_count(v) ==> #[trigger] date_printable(v->Ints_0[i])
}

//%% Writing lists %%//vvvvvvvvvvvvvvvvvvvvvvvvvvvvvvvvvvvv/

/// The name of an empty simple list of type `t`.
fn empty_list_name(t: i8) -> (r: &'static str)
    ensures
        r@ == empty_list_text(t),
{
    if t == qtype::BOOL_LIST {
        "`bool$()"
    } else if t == qtype::GUID_LIST {
        "`guid$()"
    } else if t == qtype::BYTE_LIST {
        "`byte$()"
    } else if t == qtype::SHORT_LIST {
        "`short$()"
    } else if t == qtype::INT_LIST {
        "`int$()"
    } else if t == qtype::LONG_LIST {
        "`long$()"
    } else if t == qtype::REAL_LIST {
        "`real$()"
    } else if t == qtype::FLOAT_LIST {
        "`float$()"
    } else if t == qtype::SYMBOL_LIST {
        "`symbol$()"
    } else if t == qtype::TIMESTAMP_LIST {
        "`timestamp$()"
    } else if t == qtype::MONTH_LIST {
        "`month$()"
    } else if t == qtype::DATE_LIST {
        "`date$()"
    } else if t == qtype::DATETIME_LIST {
        "`datetime$()"
    } else if t == qtype::TIMESPAN_LIST {
        "`timespan$()"
    } else if t == qtype::MINUTE_LIST {
        "`minute$()"
    } else if t == qtype::SECOND_LIST {
        "`second$()"
    } else {
        "`time$()"
    }
}

/// Append the letter of the type `t` after a text that ends with a special value or not.
fn put_letter(t: i8, special: bool, out: &mut Vec<Glyph>)
    ensures
        final(out)@ == old(out)@ + letter_text(t, special),
{
    let u: i16 = if t < 0 {
        -(t as i16)
    } else {
        t as i16
    };
    let always = u == 1 || u == 5 || u == 6 || u == 8 || u == 13;
    let letter: Option<char> = if u == 1 {
        Some('b')
    } else if u == 5 {
        Some('h')
    } else if u == 6 {
        Some('i')
    } else if u == 8 {
        Some('e')
    } else if u == 12 {
        Some('p')
    } else if u == 13 {
        Some('m')
    } else if u == 14 {
        Some('d')
    } else if u == 15 {
        Some('z')
    } else if u == 16 {
        Some('n')
    } else if u == 17 {
        Some('u')
    } else if u == 18 {
        Some('v')
    } else if u == 19 {
        Some('t')
    } else {
        None
    };
    match letter {
        Some(c) => {
            if always || special {
                push_char(out, c);
            } else {
                assert(out@ =~= old(out)@ + letter_text(t, special));
            }
        },
        None => {
            assert(out@ =~= old(out)@ + letter_text(t, special));
        },
    }
}

/// Append the text of the element `i` of a simple list; tells whether it is a special value of
/// a temporal type.
fn put_element(k: &K, i: usize, out: &mut Vec<Glyph>) -> (special: bool)
    requires
        k@.shaped(),
        is_simple_list(k@.value),
        i < simple_count(k@.value),
        simple_list_printable(k.qtype, k@.value),
    ensures
        special == element_special(k.qtype, k@.value, i as int),
        final(out)@ == old(out)@ + element_text(k.qtype, k@.value, i as int),
{
    let t = k.qtype;
    match &k.value {
        KValue::List(KList::Byte(v)) => {
            if t == qtype::BOOL_LIST {
                put_bool(v[i], out);
            } else {
                put_byte(v[i], out);
            }
            false
        },
        KValue::List(KList::Guid(v)) => {
            put_guid(v[i], out);
            false
        },
        KValue::List(KList::Short(v)) => {
            put_short(v[i], out);
            false
        },
        KValue::List(KList::Int(v)) => {
            if t == qtype::MONTH_LIST {
                put_month(v[i], out);
                false
            } else if t == qtype::DATE_LIST {
                assert(date_printable(k@.value->Ints_0[i as int]));
                put_date(v[i], out)
            } else if t == qtype::MINUTE_LIST {
                put_minute(v[i], out)
            } else if t == qtype::SECOND_LIST {
                put_second(v[i], out)
            } else if t == qtype::TIME_LIST {
                put_time(v[i], out)
            } else {
                put_int(v[i], out);
                false
            }
        },
        KValue::List(KList::Long(v)) => {
            if t == qtype::TIMESTAMP_LIST {
                put_timestamp(v[i], out)
            } else if t == qtype::TIMESPAN_LIST {
                put_timespan(v[i], out)
            } else {
                put_long(v[i], out);
                false
            }
        },
        KValue::List(KList::Real(v)) => {
            put_real(v[i], out);
            false
        },
        KValue::List(KList::Float(v)) => {
            if t == qtype::DATETIME_LIST {
                put_datetime(v[i], out)
            } else {
                put_float(v[i], out);
                false
            }
        },
        KValue::List(KList::Symbol(v)) => {
            put_symbol(v[i].as_str(), out);
            false
        },
        _ => false,
    }
}

/// Number of elements of a simple list.
fn simple_len(k: &K) -> (n: usize)
    requires
        is_simple_list(k@.value),
    ensures
        n == simple_count(k@.value),
{
    match &k.value {
        KValue::List(KList::Byte(v)) => v.len(),
        KValue::List(KList::Guid(v)) => v.len(),
        KValue::List(KList::Short(v)) => v.len(),
        KValue::List(KList::Int(v)) => v.len(),
        KValue::List(KList::Long(v)) => v.len(),
        KValue::List(KList::Real(v)) => v.len(),
        KValue::List(KList::Float(v)) => v.len(),
        KValue::List(KList::Symbol(v)) => {
            assert(texts(v@).len() == v@.len());
            v.len()
        },
        _ => 0,
    }
}

/// Append the text of a simple list (without its attribute).
fn put_simple_list(k: &K, out: &mut Vec<Glyph>)
    requires
        k@.shaped(),
        is_simple_list(k@.value),
        simple_list_printable(k.qtype, k@.value),
    ensures
        final(out)@ == old(out)@ + simple_list_text(k.qtype, k@.value),
{
    let t = k.qtype;
    let ghost v = k@.value;
    let n = simple_len(k);
    if n == 0 {
        push_str(out, empty_list_name(t));
        return;
    }
    let ghost c: Seq<Glyph> = if n == 1 {
        glyphs(seq![','])
    } else {
        Seq::empty()
    };
    let ghost x: Seq<Glyph> = if t == qtype::BYTE_LIST {
        glyphs(seq!['0', 'x'])
    } else {
        Seq::empty()
    };
    if n == 1 {
        push_char(out, ',');
    }
    if t == qtype::BYTE_LIST {
        push_chars2(out, '0', 'x');
    }
    let ghost base = old(out)@ + c + x;
    assert(out@ =~= base);
    let spaced = !(t == qtype::BOOL_LIST || t == qtype::BYTE_LIST || t == qtype::SYMBOL_LIST);
    let mut special = false;
    let mut i: usize = 0;
    while i < n
        invariant
            0 <= i <= n,
            n == simple_count(v),
            v == k@.value,
            t == k.qtype,
            k@.shaped(),
            is_simple_list(v),
            simple_list_printable(t, v),
            spaced == (separator(t) != Seq::<Glyph>::empty()),
            separator(t) == (if spaced {
                glyphs(seq![' '])
            } else {
                Seq::<Glyph>::empty()
            }),
            out@ == base + elements_text(t, v, i as nat, separator(t)),
            i > 0 ==> special == element_special(t, v, i - 1),
        decreases n - i,
    {
        let ghost before = out@;
        if i > 0 && spaced {
            push_char(out, ' ');
        }
        assert(i > 0 ==> out@ == before + separator(t));
        special = put_element(k, i, out);
        proof {
            if i == 0 {
                assert(out@ =~= base + elements_text(t, v, 1, separator(t)));
            } else {
                assert(out@ =~= base + elements_text(t, v, (i + 1) as nat, separator(t)));
            }
        }
        i += 1;
    }
    put_letter(t, special, out);
    proof {
        assert(out@ =~= old(out)@ + simple_list_text(t, v));
    }
}

//%% Objects %%//vvvvvvvvvvvvvvvvvvvvvvvvvvvvvvvvvvvvvv/

/// `t` in parentheses when `keyed`.
pub open spec fn parenthesized(t: Seq<Glyph>, keyed: bool) -> Seq<Glyph> {
    if keyed {
        glyphs(seq!['(']) + t + glyphs(seq![')'])
    } else {
        t
    }
}

/// The q text of an object, as the q console prints it (reals, floats and datetimes left as
/// glyphs).
pub open spec fn q_text(o: QObject) -> Seq<Glyph>
    decreases o, 1int,
{
    let t = o.qtype;
    if t == qtype::NULL {
        glyphs(seq![':', ':'])
    } else {
        match o.value {
            QValue::Byte(b) => if t == qtype::BOOL_ATOM {
                bool_text(b) + glyphs(seq!['b'])
            } else if t == qtype::BYTE_ATOM {
                glyphs(seq!['0', 'x'] + hex2(b))
            } else {
                glyphs(seq!['"', b as char, '"'])
            },
            QValue::Guid(g) => guid_text(g),
            QValue::Short(x) => integer_text(x as int, qnull_base::H as int, qinf_base::H as int)
                + letter_text(t, false),
            QValue::Int(x) => if t == qtype::MONTH_ATOM {
                month_text(x) + letter_text(t, false)
            } else if t == qtype::DATE_ATOM {
                date_text(x) + letter_text(
                    t,
                    special_text(x as int, qnull_base::I as int, qinf_base::I as int) is Some,
                )
            } else if t == qtype::MINUTE_ATOM {
                minute_text(x) + letter_text(
                    t,
                    special_text(x as int, qnull_base::I as int, qinf_base::I as int) is Some,
                )
            } else if t == qtype::SECOND_ATOM {
                second_text(x) + letter_text(
                    t,
                    special_text(x as int, qnull_base::I as int, qinf_base::I as int) is Some,
                )
            } else if t == qtype::TIME_ATOM {
                time_text(x) + letter_text(
                    t,
                    special_text(x as int, qnull_base::I as int, qinf_base::I as int) is Some,
                )
            } else {
                integer_text(x as int, qnull_base::I as int, qinf_base::I as int) + letter_text(
                    t,
                    false,
                )
            },
            QValue::Long(x) => if t == qtype::TIMESTAMP_ATOM {
                timestamp_text(x) + letter_text(
                    t,
                    special_text(x as int, qnull_base::J as int, qinf_base::J as int) is Some,
                )
            } else if t == qtype::TIMESPAN_ATOM {
                timespan_text(x) + letter_text(
                    t,
                    special_text(x as int, qnull_base::J as int, qinf_base::J as int) is Some,
                )
            } else {
                integer_text(x as int, qnull_base::J as int, qinf_base::J as int)
            },
            QValue::Real(x) => real_text(x) + letter_text(t, false),
            QValue::Float(x) => if t == qtype::DATETIME_ATOM {
                datetime_text(x) + letter_text(t, datetime_special(x))
            } else {
                float_text(x)
            },
            QValue::Text(s) => if t == qtype::SYMBOL_ATOM {
                symbol_text(s)
            } else {
                attribute_text(o.attribute) + string_text(s)
            },
            QValue::Objects(v) => if t == qtype::COMPOUND_LIST {
                attribute_text(o.attribute) + compound_text(v)
            } else {
                dictionary_text(v)
            },
            QValue::Table(d) => glyphs(seq!['+']) + match d.value {
                QValue::Objects(kv) => dictionary_text(kv),
                _ => Seq::empty(),
            },
            QValue::Null => glyphs(seq![':', ':']),
            _ => attribute_text(o.attribute) + simple_list_text(t, o.value),
        }
    }
}

/// The texts of the objects of `v`, separated by semicolons.
pub open spec fn joined_text(v: Seq<QObject>) -> Seq<Glyph>
    decreases v, 0int,
{
    if v.len() == 0 {
        Seq::empty()
    } else if v.len() == 1 {
        q_text(v[0])
    } else {
        joined_text(v.drop_last()) + glyphs(seq![';']) + q_text(v.last())
    }
}

/// The text of a compound list (without its attribute): `()`, a comma and the single element,
/// or the elements in parentheses separated by semicolons.
pub open spec fn compound_text(v: Seq<QObject>) -> Seq<Glyph>
    decreases v, 1int,
{
    if v.len() == 0 {
        glyphs(seq!['(', ')'])
    } else if v.len() == 1 {
        glyphs(seq![',']) + q_text(v[0])
    } else {
        glyphs(seq!['(']) + joined_text(v) + glyphs(seq![')'])
    }
}

/// The text of a dictionary whose keys and values are `kv[0]` and `kv[1]`: `keys!values`,
/// each side in parentheses when the keys are a table.
pub open spec fn dictionary_text(kv: Seq<QObject>) -> Seq<Glyph>
    decreases kv, 0int,
{
    if kv.len() < 2 {
        Seq::empty()
    } else {
        let keyed = kv[0].qtype == qtype::TABLE;
        parenthesized(q_text(kv[0]), keyed) + glyphs(seq!['!']) + parenthesized(
            q_text(kv[1]),
            keyed,
        )
    }
}

/// Whether the object can be printed: a type the printer knows (not an error) with a value
/// that agrees with it throughout, dictionaries with keys and values, dates whose time fits.
pub open spec fn formattable(o: QObject) -> bool
    decreases o, 1int,
{
    let t = o.qtype;
    if t == qtype::NULL {
        true
    } else {
        match o.value {
            QValue::Int(x) => is_int_atom_type(t) && (t == qtype::DATE_ATOM ==> date_printable(x)),
            QValue::Text(_) => t == qtype::SYMBOL_ATOM || t == qtype::STRING,
            QValue::Objects(v) => if t == qtype::COMPOUND_LIST {
                all_formattable(v)
            } else {
                (t == qtype::DICTIONARY || t == qtype::SORTED_DICTIONARY) && dictionary_formattable(
                    v,
                )
            },
            QValue::Table(d) => t == qtype::TABLE && (d.qtype == qtype::COMPOUND_LIST || d.qtype
                == qtype::DICTIONARY || d.qtype == qtype::SORTED_DICTIONARY) && match d.value {
                QValue::Objects(kv) => dictionary_formattable(kv),
                _ => false,
            },
            QValue::Null => false,
            _ => o.shaped() && (is_simple_list(o.value) ==> simple_list_printable(t, o.value)),
        }
    }
}

/// Whether every object of `v` can be printed.
pub open spec fn all_formattable(v: Seq<QObject>) -> bool
    decreases v, 0int,
{
    if v.len() == 0 {
        true
    } else {
        all_formattable(v.drop_last()) && formattable(v.last())
    }
}

/// Whether a dictionary with the keys and values `kv` can be printed.
pub open spec fn dictionary_formattable(kv: Seq<QObject>) -> bool
    decreases kv, 0int,
{
    kv.len() >= 2 && formattable(kv[0]) && formattable(kv[1])
}

/// Every object of a printable sequence is printable.
proof fn lemma_all_formattable(v: Seq<QObject>, i: int)
    requires
        all_formattable(v),
        0 <= i < v.len(),
    ensures
        formattable(v[i]),
    decreases v.len(),
{
    if i < v.len() - 1 {
        lemma_all_formattable(v.drop_last(), i);
    }
}

//%% Writing objects %%//vvvvvvvvvvvvvvvvvvvvvvvvvvvvvvvvv/

/// Append the text of an atom of the temporal or numeric type `t` held as an int.
fn put_int_atom(t: i8, x: i32, out: &mut Vec<Glyph>)
    requires
        is_int_atom_type(t),
        t == qtype::DATE_ATOM ==> date_printable(x),
    ensures
        final(out)@ == old(out)@ + q_text(QObject { qtype: t, attribute: 0, value: QValue::Int(x) }),
{
    let ghost o = QObject { qtype: t, attribute: 0, value: QValue::Int(x) };
    if t == qtype::MONTH_ATOM {
        put_month(x, out);
        put_letter(t, false, out);
    } else if t == qtype::DATE_ATOM {
        let special = put_date(x, out);
        put_letter(t, special, out);
    } else if t == qtype::MINUTE_ATOM {
        let special = put_minute(x, out);
        put_letter(t, special, out);
    } else if t == qtype::SECOND_ATOM {
        let special = put_second(x, out);
        put_letter(t, special, out);
    } else if t == qtype::TIME_ATOM {
        let special = put_time(x, out);
        put_letter(t, special, out);
    } else {
        put_int(x, out);
        put_letter(t, false, out);
    }
    assert(out@ =~= old(out)@ + q_text(o));
}

/// Append the text of an atom of the temporal or numeric type `t` held as a long.
fn put_long_atom(t: i8, x: i64, out: &mut Vec<Glyph>)
    requires
        is_long_atom_type(t),
    ensures
        final(out)@ == old(out)@ + q_text(QObject { qtype: t, attribute: 0, value: QValue::Long(x) }),
{
    let ghost o = QObject { qtype: t, attribute: 0, value: QValue::Long(x) };
    if t == qtype::TIMESTAMP_ATOM {
        let special = put_timestamp(x, out);
        put_letter(t, special, out);
    } else if t == qtype::TIMESPAN_ATOM {
        let special = put_timespan(x, out);
        put_letter(t, special, out);
    } else {
        put_long(x, out);
    }
    assert(out@ =~= old(out)@ + q_text(o));
}

/// Append the texts of the objects of `v`, separated by semicolons.
fn put_joined(v: &Vec<K>, out: &mut Vec<Glyph>)
    requires
        all_formattable(models(v@)),
    ensures
        final(out)@ == old(out)@ + joined_text(models(v@)),
    decreases v@, 0int,
{
    let ghost m = models(v@);
    let mut i: usize = 0;
    assert(m.take(0) =~= Seq::<QObject>::empty());
    while i < v.len()
        invariant
            i <= v@.len(),
            m == models(v@),
            all_formattable(m),
            out@ == old(out)@ + joined_text(m.take(i as int)),
        decreases v@.len() - i,
    {
        if i > 0 {
            push_char(out, ';');
        }
        proof {
            lemma_all_formattable(m, i as int);
            assert(decreases_to!(v@ => v@[i as int]));
        }
        put_q(&v[i], out);
        i += 1;
        proof {
            assert(m.take(i as int).drop_last() =~= m.take(i - 1));
            assert(m.take(i as int).last() == v@[i - 1]@);
            if i == 1 {
                assert(out@ =~= old(out)@ + joined_text(m.take(i as int)));
            } else {
                assert(out@ =~= old(out)@ + joined_text(m.take(i as int)));
            }
        }
    }
    proof {
        assert(m.take(v@.len() as int) =~= m);
    }
}

/// Append the text of a compound list (without its attribute).
fn put_compound_list(v: &Vec<K>, out: &mut Vec<Glyph>)
    requires
        all_formattable(models(v@)),
    ensures
        final(out)@ == old(out)@ + compound_text(models(v@)),
    decreases v@, 1int,
{
    let ghost m = models(v@);
    let n = v.len();
    if n == 0 {
        push_chars2(out, '(', ')');
    } else if n == 1 {
        push_char(out, ',');
        proof {
            lemma_all_formattable(m, 0);
            assert(decreases_to!(v@ => v@[0]));
        }
        put_q(&v[0], out);
        assert(out@ =~= old(out)@ + compound_text(m));
    } else {
        push_char(out, '(');
        put_joined(v, out);
        push_char(out, ')');
        assert(out@ =~= old(out)@ + compound_text(m));
    }
}

/// Append the text of a dictionary whose keys and values are `kv[0]` and `kv[1]`.
fn put_dictionary(kv: &Vec<K>, out: &mut Vec<Glyph>)
    requires
        dictionary_formattable(models(kv@)),
    ensures
        final(out)@ == old(out)@ + dictionary_text(models(kv@)),
    decreases kv@, 0int,
{
    let ghost m = models(kv@);
    let keyed = kv[0].qtype == qtype::TABLE;
    if keyed {
        push_char(out, '(');
    }
    let ghost a = out@;
    assert(decreases_to!(kv@ => kv@[0]));
    put_q(&kv[0], out);
    if keyed {
        push_char(out, ')');
    }
    push_char(out, '!');
    if keyed {
        push_char(out, '(');
    }
    assert(decreases_to!(kv@ => kv@[1]));
    put_q(&kv[1], out);
    if keyed {
        push_char(out, ')');
    }
    assert(out@ =~= old(out)@ + dictionary_text(m));
}

/// Append the q text of an object.
fn put_q(k: &K, out: &mut Vec<Glyph>)
    requires
        formattable(k@),
    ensures
        final(out)@ == old(out)@ + q_text(k@),
    decreases k, 1int,
{
    let t = k.qtype;
    if t == qtype::NULL {
        push_chars2(out, ':', ':');
        return;
    }
    proof {
        if k@.value is Objects {
            lemma_compound_model(k);
        }
    }
    match &k.value {
        KValue::Byte(b) => {
            if t == qtype::BOOL_ATOM {
                put_bool(*b, out);
                push_char(out, 'b');
                proof {
                    lemma_glyphs_concat(seq!['0', 'x'], hex2(*b));
                }
            } else if t == qtype::BYTE_ATOM {
                push_chars2(out, '0', 'x');
                put_byte(*b, out);
                proof {
                    lemma_glyphs_concat(seq!['0', 'x'], hex2(*b));
                }
            } else {
                push_char(out, '"');
                push_chars2(out, *b as char, '"');
                proof {
                    lemma_glyphs_concat(seq!['"'], seq![*b as char, '"']);
                    assert(seq!['"'] + seq![*b as char, '"'] =~= seq!['"', *b as char, '"']);
                }
            }
            assert(out@ =~= old(out)@ + q_text(k@));
        },
        KValue::Guid(g) => {
            put_guid(*g, out);
        },
        KValue::Short(x) => {
            put_short(*x, out);
            put_letter(t, false, out);
            assert(out@ =~= old(out)@ + q_text(k@));
        },
        KValue::Int(x) => {
            put_int_atom(t, *x, out);
        },
        KValue::Long(x) => {
            put_long_atom(t, *x, out);
        },
        KValue::Real(x) => {
            put_real(*x, out);
            put_letter(t, false, out);
            assert(out@ =~= old(out)@ + q_text(k@));
        },
        KValue::Float(x) => {
            if t == qtype::DATETIME_ATOM {
                let special = put_datetime(*x, out);
                put_letter(t, special, out);
            } else {
                put_float(*x, out);
            }
            assert(out@ =~= old(out)@ + q_text(k@));
        },
        KValue::Symbol(s) => {
            if t == qtype::SYMBOL_ATOM {
                put_symbol(s.as_str(), out);
            } else {
                put_attribute(k.attribute, out);
                put_string(s.as_str(), out);
                assert(out@ =~= old(out)@ + q_text(k@));
            }
        },
        KValue::Table(d) => {
            push_char(out, '+');
            proof {
                lemma_compound_model(&**d);
            }
            match &d.value {
                KValue::List(KList::Compound(kv)) => {
                    assert(decreases_to!(k => kv@));
                    put_dictionary(kv, out);
                },
                _ => {},
            }
            assert(out@ =~= old(out)@ + q_text(k@));
        },
        KValue::List(KList::Compound(v)) => {
            if t == qtype::COMPOUND_LIST {
                put_attribute(k.attribute, out);
                assert(decreases_to!(k => v@));
                put_compound_list(v, out);
            } else {
                assert(decreases_to!(k => v@));
                put_dictionary(v, out);
            }
            assert(out@ =~= old(out)@ + q_text(k@));
        },
        KValue::Null => {},
        _ => {
            put_attribute(k.attribute, out);
            put_simple_list(k, out);
            assert(out@ =~= old(out)@ + q_text(k@));
        },
    }
}

/// The text of an object as q displays it: an error as a quote and its message, any other
/// object by its q text.
pub open spec fn display_text(o: QObject) -> Seq<Glyph> {
    if o.qtype == qtype::ERROR {
        glyphs(seq!['\''] + o.value->Text_0)
    } else {
        q_text(o)
    }
}

/// Whether an object can be displayed: an error with its message, or a printable object.
pub open spec fn displayable(o: QObject) -> bool {
    if o.qtype == qtype::ERROR {
        o.value is Text
    } else {
        formattable(o)
    }
}

impl K {
    /// The text of the object as the q console displays it. Reals, floats and datetimes are
    /// left as glyphs for the caller to print in decimal, at the precision it chooses.
    pub fn display_glyphs(&self) -> (r: Vec<Glyph>)
        requires
            displayable(self@),
        ensures
            r@ == display_text(self@),
    {
        let mut out: Vec<Glyph> = Vec::new();
        if self.qtype == qtype::ERROR {
            push_char(&mut out, '\'');
            match &self.value {
                KValue::Symbol(s) => push_str(&mut out, s.as_str()),
                _ => {},
            }
            proof {
                lemma_glyphs_concat(seq!['\''], self@.value->Text_0);
            }
        } else {
            put_q(self, &mut out);
        }
        assert(out@ =~= display_text(self@));
        out
    }
}

//%% Errors %%//vvvvvvvvvvvvvvvvvvvvvvvvvvvvvvvvvvvvvvvv/

/// The message of an error, as it is displayed.
pub open spec fn error_text(e: &Error) -> Seq<Glyph> {
    match e {
        Error::InvalidDateTime => glyphs("invalid datetime"@),
        Error::IO(m) => glyphs("IO error: "@) + glyphs(m@),
        Error::InvalidCast { from, to } => glyphs("invalid cast from "@) + glyphs(from@) + glyphs(
            " to "@,
        ) + glyphs(to@),
        Error::InvalidCastList(from) => glyphs("invalid cast from "@) + glyphs(from@) + glyphs(
            " to list of generics T"@,
        ),
        Error::IndexOutOfBounds { length, index } => glyphs("index out of bounds: specified "@)
            + glyphs(digits(*index as nat)) + glyphs(" but length is "@) + glyphs(
            digits(*length as nat),
        ),
        Error::InvalidOperation { operator, operand_type, expected } => glyphs(
            "invalid operation "@,
        ) + glyphs(operator@) + glyphs(" on "@) + glyphs(operand_type@) + match expected {
            Some(x) => glyphs(". expected: "@) + glyphs(x@),
            None => Seq::empty(),
        },
        Error::LengthMismatch { key_length, value_length } => glyphs(
            "key-value length mismatch: "@,
        ) + glyphs(digits(*key_length as nat)) + glyphs(" and "@) + glyphs(
            digits(*value_length as nat),
        ),
        Error::NoSuchColumn(c) => glyphs("no such column: "@) + glyphs(c@),
        Error::InsertWrongElement { is_insert, destination, expected } => glyphs(
            if *is_insert {
                "insert"@
            } else {
                "push"@
            },
        ) + glyphs(" wrong element to "@) + glyphs(destination@) + glyphs(": expected "@) + glyphs(
            expected@,
        ),
        Error::Object(o) => display_text(o@),
        Error::PopFromEmptyList => glyphs("pop from empty list"@),
    }
}

impl Error {
    /// The message of the error, as it is displayed; a refused object is displayed as q
    /// displays it.
    pub fn display_glyphs(&self) -> (r: Vec<Glyph>)
        requires
            self matches Error::Object(o) ==> displayable(o@),
        ensures
            r@ == error_text(self),
    {
        let mut out: Vec<Glyph> = Vec::new();
        match self {
            Error::InvalidDateTime => push_str(&mut out, "invalid datetime"),
            Error::IO(m) => {
                push_str(&mut out, "IO error: ");
                push_str(&mut out, m.as_str());
            },
            Error::InvalidCast { from, to } => {
                push_str(&mut out, "invalid cast from ");
                push_str(&mut out, from);
                push_str(&mut out, " to ");
                push_str(&mut out, to);
            },
            Error::InvalidCastList(from) => {
                push_str(&mut out, "invalid cast from ");
                push_str(&mut out, from);
                push_str(&mut out, " to list of generics T");
            },
            Error::IndexOutOfBounds { length, index } => {
                push_str(&mut out, "index out of bounds: specified ");
                push_digits(&mut out, *index as u64);
                push_str(&mut out, " but length is ");
                push_digits(&mut out, *length as u64);
            },
            Error::InvalidOperation { operator, operand_type, expected } => {
                push_str(&mut out, "invalid operation ");
                push_str(&mut out, operator);
                push_str(&mut out, " on ");
                push_str(&mut out, operand_type);
                match expected {
                    Some(x) => {
                        push_str(&mut out, ". expected: ");
                        push_str(&mut out, x);
                    },
                    None => {},
                }
            },
            Error::LengthMismatch { key_length, value_length } => {
                push_str(&mut out, "key-value length mismatch: ");
                push_digits(&mut out, *key_length as u64);
                push_str(&mut out, " and ");
                push_digits(&mut out, *value_length as u64);
            },
            Error::NoSuchColumn(c) => {
                push_str(&mut out, "no such column: ");
                push_str(&mut out, c.as_str());
            },
            Error::InsertWrongElement { is_insert, destination, expected } => {
                push_str(
                    &mut out,
                    if *is_insert {
                        "insert"
                    } else {
                        "push"
                    },
                );
                push_str(&mut out, " wrong element to ");
                push_str(&mut out, destination);
                push_str(&mut out, ": expected ");
                push_str(&mut out, expected);
            },
            Error::Object(o) => {
                out = o.display_glyphs();
            },
            Error::PopFromEmptyList => push_str(&mut out, "pop from empty list"),
        }
        assert(out@ =~= error_text(self));
        out
    }
}

//%% Checking %%//vvvvvvvvvvvvvvvvvvvvvvvvvvvvvvvvvvvvvvvv/

/// Whether a date can be printed.
fn check_date(days: i32) -> (r: bool)
    ensures
        r == date_printable(days),
{
    if days == qnull_base::I || days == qinf_base::I || days == -qinf_base::I {
        return true;
    }
    let d: i64 = days as i64 + KDB_DAY_OFFSET as i64;
    if d < i32::MIN as i64 || d > i32::MAX as i64 {
        return false;
    }
    let nanos: i128 = ONE_DAY_NANOS as i128 * d as i128;
    i64::MIN as i128 <= nanos && nanos <= i64::MAX as i128
}

/// Whether every date of a list can be printed.
fn check_dates(v: &Vec<i32>) -> (r: bool)
    ensures
        r == (forall|i: int| 0 <= i < v@.len() ==> #[trigger] date_printable(v@[i])),
{
    let mut i: usize = 0;
    while i < v.len()
        invariant
            i <= v@.len(),
            forall|j: int| 0 <= j < i ==> #[trigger] date_printable(v@[j]),
        decreases v@.len() - i,
    {
        if !check_date(v[i]) {
            return false;
        }
        i += 1;
    }
    true
}

/// Whether the value of an object agrees with its type at the top level.
fn check_shaped(k: &K) -> (r: bool)
    ensures
        r == k@.shaped(),
{
    let t = k.qtype;
    match &k.value {
        KValue::Byte(_) => t == qtype::BOOL_ATOM || t == qtype::BYTE_ATOM || t == qtype::CHAR,
        KValue::Guid(_) => t == qtype::GUID_ATOM,
        KValue::Short(_) => t == qtype::SHORT_ATOM,
        KValue::Int(_) => t == qtype::INT_ATOM || t == qtype::MONTH_ATOM || t == qtype::DATE_ATOM
            || t == qtype::MINUTE_ATOM || t == qtype::SECOND_ATOM || t == qtype::TIME_ATOM,
        KValue::Long(_) => t == qtype::LONG_ATOM || t == qtype::TIMESTAMP_ATOM || t
            == qtype::TIMESPAN_ATOM,
        KValue::Real(_) => t == qtype::REAL_ATOM,
        KValue::Float(_) => t == qtype::FLOAT_ATOM || t == qtype::DATETIME_ATOM,
        KValue::Symbol(_) => t == qtype::SYMBOL_ATOM || t == qtype::STRING || t == qtype::ERROR,
        KValue::Table(_) => t == qtype::TABLE,
        KValue::List(KList::Byte(_)) => t == qtype::BOOL_LIST || t == qtype::BYTE_LIST,
        KValue::List(KList::Guid(_)) => t == qtype::GUID_LIST,
        KValue::List(KList::Short(_)) => t == qtype::SHORT_LIST,
        KValue::List(KList::Int(_)) => t == qtype::INT_LIST || t == qtype::MONTH_LIST || t
            == qtype::DATE_LIST || t == qtype::MINUTE_LIST || t == qtype::SECOND_LIST || t
            == qtype::TIME_LIST,
        KValue::List(KList::Long(_)) => t == qtype::LONG_LIST || t == qtype::TIMESTAMP_LIST || t
            == qtype::TIMESPAN_LIST,
        KValue::List(KList::Real(_)) => t == qtype::REAL_LIST,
        KValue::List(KList::Float(_)) => t == qtype::FLOAT_LIST || t == qtype::DATETIME_LIST,
        KValue::List(KList::Symbol(_)) => t == qtype::SYMBOL_LIST,
        KValue::List(KList::Compound(_)) => t == qtype::COMPOUND_LIST || t == qtype::DICTIONARY
            || t == qtype::SORTED_DICTIONARY,
        KValue::Null => t == qtype::NULL,
    }
}

/// Whether every object of `v` can be printed.
fn check_all(v: &Vec<K>) -> (r: bool)
    ensures
        r == all_formattable(models(v@)),
    decreases v@, 0int,
{
    let ghost m = models(v@);
    let mut i: usize = 0;
    assert(m.take(0) =~= Seq::<QObject>::empty());
    while i < v.len()
        invariant
            i <= v@.len(),
            m == models(v@),
            all_formattable(m.take(i as int)),
        decreases v@.len() - i,
    {
        assert(decreases_to!(v@ => v@[i as int]));
        let ok = check_formattable(&v[i]);
        proof {
            assert(m.take(i + 1).drop_last() =~= m.take(i as int));
        }
        if !ok {
            proof {
                if all_formattable(m) {
                    lemma_all_formattable_prefix(m, (i + 1) as int);
                }
            }
            return false;
        }
        i += 1;
    }
    assert(m.take(v@.len() as int) =~= m);
    true
}

/// A sequence whose objects can all be printed has a prefix whose objects can.
proof fn lemma_all_formattable_prefix(v: Seq<QObject>, n: int)
    requires
        all_formattable(v),
        0 <= n <= v.len(),
    ensures
        all_formattable(v.take(n)),
    decreases v.len() - n,
{
    if n < v.len() {
        lemma_all_formattable_prefix(v, n + 1);
        assert(v.take(n + 1).drop_last() =~= v.take(n));
    } else {
        assert(v.take(n) =~= v);
    }
}

/// Whether a dictionary with the keys and values `kv` can be printed.
fn check_dictionary(kv: &Vec<K>) -> (r: bool)
    ensures
        r == dictionary_formattable(models(kv@)),
    decreases kv@, 0int,
{
    if kv.len() < 2 {
        return false;
    }
    assert(decreases_to!(kv@ => kv@[0]));
    assert(decreases_to!(kv@ => kv@[1]));
    check_formattable(&kv[0]) && check_formattable(&kv[1])
}

/// Whether an object can be printed.
fn check_formattable(k: &K) -> (r: bool)
    ensures
        r == formattable(k@),
    decreases k, 1int,
{
    let t = k.qtype;
    if t == qtype::NULL {
        return true;
    }
    proof {
        if k@.value is Objects {
            lemma_compound_model(k);
        }
    }
    let r = match &k.value {
        KValue::Int(x) => {
            let a = check_shaped(k);
            let b = t != qtype::DATE_ATOM || check_date(*x);
            assert(k@.value == QValue::Int(*x));
            a && b
        },
        KValue::Symbol(_) => t == qtype::SYMBOL_ATOM || t == qtype::STRING,
        KValue::List(KList::Compound(v)) => {
            assert(decreases_to!(k => v@));
            if t == qtype::COMPOUND_LIST {
                check_all(v)
            } else {
                (t == qtype::DICTIONARY || t == qtype::SORTED_DICTIONARY) && check_dictionary(v)
            }
        },
        KValue::Table(d) => {
            assert(k@.value == QValue::Table(Box::new((**d)@)));
            if !(t == qtype::TABLE && (d.qtype == qtype::COMPOUND_LIST || d.qtype
                == qtype::DICTIONARY || d.qtype == qtype::SORTED_DICTIONARY)) {
                false
            } else {
                match &d.value {
                    KValue::List(KList::Compound(kv)) => {
                        proof {
                            lemma_compound_model(&**d);
                        }
                        assert(decreases_to!(k => kv@));
                        check_dictionary(kv)
                    },
                    _ => {
                        assert(!((**d)@.value is Objects));
                        false
                    },
                }
            }
        },
        KValue::Null => false,
        KValue::List(KList::Int(v)) => {
            let a = check_shaped(k);
            assert(k@.value == QValue::Ints(v@));
            assert(simple_count(k@.value) == v@.len());
            let b = t != qtype::DATE_LIST || check_dates(v);
            assert(b == simple_list_printable(t, k@.value));
            a && b
        },
        _ => check_shaped(k),
    };
    r
}

impl K {
    /// Whether the object can be displayed (see `display_glyphs`).
    pub fn is_displayable(&self) -> (r: bool)
        ensures
            r == displayable(self@),
    {
        if self.qtype == qtype::ERROR {
            match &self.value {
                KValue::Symbol(_) => true,
                _ => false,
            }
        } else {
            check_formattable(self)
        }
    }
}

} // verus!
