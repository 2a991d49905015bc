//! Text of numbers: decimal and hexadecimal digits, with or without padding.

use vstd::prelude::*;

verus! {

/// A unit of the text of a q object: a character (by its code point), or a real, a float or a datetime whose
/// decimal text is left to the caller (given by the bit pattern of the `f32` or `f64`).
#[derive(Clone, Copy, Debug, PartialEq, Eq, Structural)]
pub enum Glyph {
    Letter(u32),
    Real(u32),
    Float(u64),
    Datetime(u64),
}

/// The glyphs of the characters of `s`.
pub open spec fn glyphs(s: Seq<char>) -> Seq<Glyph>
    decreases s.len(),
{
    if s.len() == 0 {
        Seq::empty()
    } else {
        glyphs(s.drop_last()).push(Glyph::Letter(s.last() as u32))
    }
}

/// The glyphs of a concatenation.
pub proof fn lemma_glyphs_concat(a: Seq<char>, b: Seq<char>)
    ensures
        glyphs(a + b) == glyphs(a) + glyphs(b),
    decreases b.len(),
{
    if b.len() == 0 {
        assert(a + b =~= a);
        assert(glyphs(a) + glyphs(b) =~= glyphs(a));
    } else {
        lemma_glyphs_concat(a, b.drop_last());
        assert((a + b).drop_last() =~= a + b.drop_last());
        assert(glyphs(a) + glyphs(b) =~= (glyphs(a) + glyphs(b.drop_last())).push(
            Glyph::Letter(b.last() as u32),
        ));
    }
}

/// The glyphs of one character.
pub proof fn lemma_glyphs_one(c: char)
    ensures
        glyphs(seq![c]) == seq![Glyph::Letter(c as u32)],
{
    assert(seq![c].drop_last() =~= Seq::<char>::empty());
    assert(glyphs(Seq::<char>::empty()) =~= Seq::<Glyph>::empty());
    assert(seq![c].last() == c);
    assert(glyphs(seq![c]) =~= seq![Glyph::Letter(c as u32)]);
}

/// Number of glyphs of a text.
pub proof fn lemma_glyphs_len(s: Seq<char>)
    ensures
        glyphs(s).len() == s.len(),
    decreases s.len(),
{
    if s.len() > 0 {
        lemma_glyphs_len(s.drop_last());
    }
}

/// The decimal digit `d` (0 to 9).
pub open spec fn digit_char(d: nat) -> char {
    ((48 + d) as u8) as char
}

/// Decimal digits of `n`.
pub open spec fn digits(n: nat) -> Seq<char>
    decreases n,
{
    if n < 10 {
        seq![digit_char(n)]
    } else {
        digits(n / 10) + seq![digit_char(n % 10)]
    }
}

/// Decimal text of `n`, with a minus sign for a negative number.
pub open spec fn int_text(n: int) -> Seq<char> {
    if n < 0 {
        seq!['-'] + digits((-n) as nat)
    } else {
        digits(n as nat)
    }
}

/// Decimal digits of `n`, zero-padded on the left to `width` digits.
pub open spec fn padded(n: nat, width: nat) -> Seq<char> {
    let d = digits(n);
    if d.len() < width {
        Seq::new((width - d.len()) as nat, |i: int| '0') + d
    } else {
        d
    }
}

/// The lower-case hexadecimal digit `d` (0 to 15).
pub open spec fn hex_char(d: nat) -> char {
    if d < 10 {
        digit_char(d)
    } else {
        ((87 + d) as u8) as char
    }
}

/// Two lower-case hexadecimal digits of a byte.
pub open spec fn hex2(b: u8) -> Seq<char> {
    seq![hex_char((b / 16) as nat), hex_char((b % 16) as nat)]
}

/// Append a character.
pub fn push_char(out: &mut Vec<Glyph>, c: char)
    ensures
        final(out)@ == old(out)@ + glyphs(seq![c]),
{
    out.push(Glyph::Letter(c as u32));
    proof {
        lemma_glyphs_one(c);
        assert(out@ =~= old(out)@ + glyphs(seq![c]));
    }
}

/// Append the characters of `s`.
pub fn push_str(out: &mut Vec<Glyph>, s: &str)
    ensures
        final(out)@ == old(out)@ + glyphs(s@),
{
    let n = vstd::string::StrSliceExecFns::unicode_len(s);
    let mut i: usize = 0;
    proof {
        assert(s@.subrange(0, 0) =~= Seq::<char>::empty());
        assert(out@ =~= old(out)@ + glyphs(s@.subrange(0, 0)));
    }
    while i < n
        invariant
            i <= n,
            n == s@.len(),
            out@ == old(out)@ + glyphs(s@.subrange(0, i as int)),
        decreases n - i,
    {
        let c = vstd::string::StrSliceExecFns::get_char(s, i);
        out.push(Glyph::Letter(c as u32));
        i += 1;
        proof {
            assert(s@.subrange(0, i as int) =~= s@.subrange(0, i - 1) + seq![c]);
            lemma_glyphs_concat(s@.subrange(0, i - 1), seq![c]);
            lemma_glyphs_one(c);
        }
    }
    proof {
        assert(s@.subrange(0, n as int) =~= s@);
    }
}

/// Append the decimal digits of `n`.
pub fn push_digits(out: &mut Vec<Glyph>, n: u64)
    ensures
        final(out)@ == old(out)@ + glyphs(digits(n as nat)),
    decreases n,
{
    if n >= 10 {
        push_digits(out, n / 10);
    }
    let d = (n % 10) as u8;
    out.push(Glyph::Letter(((48 + d) as char) as u32));
    proof {
        assert(digits(n as nat) == if n < 10 {
            seq![digit_char(n as nat)]
        } else {
            digits((n / 10) as nat) + seq![digit_char((n % 10) as nat)]
        });
        if n >= 10 {
            lemma_glyphs_concat(digits((n / 10) as nat), seq![digit_char((n % 10) as nat)]);
        }
        lemma_glyphs_one(digit_char((n % 10) as nat));
        assert(out@ =~= old(out)@ + glyphs(digits(n as nat)));
    }
}

/// Number of decimal digits of `n`.
pub proof fn lemma_digits_len(n: nat)
    ensures
        digits(n).len() >= 1,
        n < 10 ==> digits(n).len() == 1,
        10 <= n < 100 ==> digits(n).len() == 2,
        100 <= n < 1000 ==> digits(n).len() == 3,
    decreases n,
{
    if n >= 10 {
        lemma_digits_len(n / 10);
    }
}

/// Append the decimal text of `n`, with a minus sign for a negative number.
pub fn push_int(out: &mut Vec<Glyph>, n: i64)
    ensures
        final(out)@ == old(out)@ + glyphs(int_text(n as int)),
{
    if n < 0 {
        push_char(out, '-');
        let m: u64 = (-(n as i128)) as u64;
        push_digits(out, m);
        proof {
            lemma_glyphs_concat(seq!['-'], digits(m as nat));
            lemma_glyphs_one('-');
        }
    } else {
        push_digits(out, n as u64);
    }
    proof {
        assert(out@ =~= old(out)@ + glyphs(int_text(n as int)));
    }
}

/// Append the decimal digits of `n`, zero-padded on the left to `width` digits.
pub fn push_padded(out: &mut Vec<Glyph>, n: u64, width: usize)
    ensures
        final(out)@ == old(out)@ + glyphs(padded(n as nat, width as nat)),
{
    let mut len: usize = 1;
    let mut v: u64 = n;
    let ghost mut k: nat = 1;
    while v >= 10
        invariant
            1 <= len <= 20,
            digits(n as nat).len() == len - 1 + digits(v as nat).len(),
        decreases v,
    {
        proof {
            assert(digits(v as nat) == digits((v / 10) as nat) + seq![digit_char((v % 10) as nat)]);
        }
        v = v / 10;
        len += 1;
        proof {
            lemma_digits_len(v as nat);
            lemma_digits_bound(n as nat, len as nat);
        }
    }
    proof {
        lemma_digits_len(v as nat);
    }
    let ghost start = out@;
    if len < width {
        let mut i: usize = 0;
        proof {
            assert(Seq::new(0, |j: int| '0') =~= Seq::<char>::empty());
            assert(out@ =~= start + glyphs(Seq::new(0, |j: int| '0')));
        }
        while i < width - len
            invariant
                i <= width - len,
                len < width,
                out@ == start + glyphs(Seq::new(i as nat, |j: int| '0')),
            decreases width - len - i,
        {
            out.push(Glyph::Letter('0' as u32));
            i += 1;
            proof {
                assert(Seq::new(i as nat, |j: int| '0').drop_last() =~= Seq::new(
                    (i - 1) as nat,
                    |j: int| '0',
                ));
            }
        }
    }
    push_digits(out, n);
    proof {
        let d = digits(n as nat);
        if d.len() < width {
            lemma_glyphs_concat(Seq::new((width - d.len()) as nat, |i: int| '0'), d);
        }
        assert(out@ =~= old(out)@ + glyphs(padded(n as nat, width as nat)));
    }
}

/// The digits of a number are at most 20.
proof fn lemma_digits_bound(n: nat, len: nat)
    requires
        n <= u64::MAX,
    ensures
        digits(n).len() <= 20,
{
    lemma_digits_le(n);
}

/// Digits of numbers up to `u64::MAX` number at most 20.
proof fn lemma_digits_le(n: nat)
    requires
        n <= u64::MAX,
    ensures
        digits(n).len() <= 20,
{
    assert(pow10(20) == 100_000_000_000_000_000_000) by {
        reveal_with_fuel(pow10, 21);
    }
    lemma_digits_log(n, 20);
}

/// A number below `10^k` has at most `k` digits.
proof fn lemma_digits_log(n: nat, k: nat)
    requires
        n < pow10(k),
        k >= 1,
    ensures
        digits(n).len() <= k,
    decreases k,
{
    if n >= 10 {
        assert(n / 10 < pow10((k - 1) as nat)) by (nonlinear_arith)
            requires
                n < pow10(k),
                pow10(k) == 10 * pow10((k - 1) as nat),
        ;
        if k == 1 {
            assert(pow10(1) == 10);
        } else {
            lemma_digits_log(n / 10, (k - 1) as nat);
        }
    }
}

/// `10^k`.
pub open spec fn pow10(k: nat) -> nat
    decreases k,
{
    if k == 0 {
        1
    } else {
        10 * pow10((k - 1) as nat)
    }
}

/// Append two lower-case hexadecimal digits of a byte.
pub fn push_hex2(out: &mut Vec<Glyph>, b: u8)
    ensures
        final(out)@ == old(out)@ + glyphs(hex2(b)),
{
    let hi = b / 16;
    let lo = b % 16;
    let h: u8 = if hi < 10 {
        48 + hi
    } else {
        87 + hi
    };
    let l: u8 = if lo < 10 {
        48 + lo
    } else {
        87 + lo
    };
    out.push(Glyph::Letter(h as char as u32));
    out.push(Glyph::Letter(l as char as u32));
    proof {
        let a = hex_char((b / 16) as nat);
        let z = hex_char((b % 16) as nat);
        assert(hex2(b) =~= seq![a] + seq![z]);
        lemma_glyphs_concat(seq![a], seq![z]);
        lemma_glyphs_one(a);
        lemma_glyphs_one(z);
        assert(out@ =~= old(out)@ + glyphs(hex2(b)));
    }
}

} // verus!
