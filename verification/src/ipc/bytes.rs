//! Integers as bytes in either byte order, and concatenations of encoded items.

use vstd::prelude::*;

verus! {

/// std's `u16::to_ne_bytes` of 1, its first byte: 1 on a little-endian host, 0 on a
/// big-endian one. q marks each message with this byte, which names the byte order of the
/// message (0 big endian, 1 little endian). The claim is that it is one of the two; which one
/// rests on the machine and is left unsaid.
#[verifier::external_body]
pub(crate) fn host_encoding() -> (r: u8)
    ensures
        r == 0 || r == 1,
{
    1u16.to_ne_bytes()[0]
}

/// The `n` low bytes of `x`, least significant first.
pub open spec fn le_bytes(x: nat, n: nat) -> Seq<u8>
    decreases n,
{
    if n == 0 {
        Seq::empty()
    } else {
        seq![(x % 256) as u8] + le_bytes(x / 256, (n - 1) as nat)
    }
}

/// The value of bytes, least significant first.
pub open spec fn le_value(b: Seq<u8>) -> nat
    decreases b.len(),
{
    if b.len() == 0 {
        0
    } else {
        (b[0] + 256 * le_value(b.drop_first())) as nat
    }
}

/// Bytes given least significant first, put in the byte order `encode` (0: big endian,
/// otherwise little endian).
pub open spec fn in_order(b: Seq<u8>, encode: u8) -> Seq<u8> {
    if encode == 0 {
        b.reverse()
    } else {
        b
    }
}

/// The `n`-byte unsigned integer `x` in the byte order `encode`.
pub open spec fn uint_bytes(x: nat, n: nat, encode: u8) -> Seq<u8> {
    in_order(le_bytes(x, n), encode)
}

/// The value of `n` bytes at `at` of `b`, read in the byte order `encode`.
pub open spec fn uint_at(b: Seq<u8>, at: int, n: int, encode: u8) -> nat {
    le_value(in_order(b.subrange(at, at + n), encode))
}

/// `n` bytes hold `x` when `x < 256^n`.
pub open spec fn fits(x: nat, n: nat) -> bool {
    x < pow256(n)
}

/// `le_bytes` has `n` bytes.
pub proof fn lemma_le_bytes_len(x: nat, n: nat)
    ensures
        le_bytes(x, n).len() == n,
    decreases n,
{
    if n > 0 {
        lemma_le_bytes_len(x / 256, (n - 1) as nat);
    }
}

/// Reading back the bytes of a value that fits gives the value.
pub proof fn lemma_le_value_le_bytes(x: nat, n: nat)
    requires
        fits(x, n),
    ensures
        le_value(le_bytes(x, n)) == x,
    decreases n,
{
    if n > 0 {
        let p = pow256((n - 1) as nat);
        assert(x / 256 < p) by (nonlinear_arith)
            requires
                x < 256 * p,
        ;
        lemma_le_value_le_bytes(x / 256, (n - 1) as nat);
        let b = le_bytes(x, n);
        assert(b.drop_first() =~= le_bytes(x / 256, (n - 1) as nat));
    }
}

/// The value of bytes is below `256^len`.
pub proof fn lemma_le_value_bound(b: Seq<u8>)
    ensures
        le_value(b) < pow256(b.len()),
    decreases b.len(),
{
    if b.len() > 0 {
        lemma_le_value_bound(b.drop_first());
        let v = le_value(b.drop_first());
        let p = pow256((b.len() - 1) as nat);
        assert(b[0] + 256 * v < 256 * p) by (nonlinear_arith)
            requires
                v < p,
                b[0] < 256,
        ;
    }
}

/// Reading back bytes in the order they were written in gives the value.
pub proof fn lemma_uint_roundtrip(x: nat, n: nat, encode: u8)
    requires
        fits(x, n),
    ensures
        uint_bytes(x, n, encode).len() == n,
        le_value(in_order(uint_bytes(x, n, encode), encode)) == x,
{
    lemma_le_bytes_len(x, n);
    lemma_le_value_le_bytes(x, n);
    if encode == 0 {
        assert(le_bytes(x, n).reverse().reverse() =~= le_bytes(x, n));
    }
}

/// `256^n` for the widths of q's integers.
pub proof fn lemma_pow256_values()
    ensures
        pow256(1) == 0x100,
        pow256(2) == 0x1_0000,
        pow256(4) == 0x1_0000_0000,
        pow256(8) == 0x1_0000_0000_0000_0000,
{
    reveal_with_fuel(pow256, 9);
}

/// Append the `n` low bytes of `x` in the byte order `encode`.
pub fn push_uint(stream: &mut Vec<u8>, x: u64, n: usize, encode: u8)
    requires
        n <= 8,
    ensures
        final(stream)@ == old(stream)@ + uint_bytes(x as nat, n as nat, encode),
{
    let mut little: Vec<u8> = Vec::new();
    let mut v: u64 = x;
    let mut i: usize = 0;
    while i < n
        invariant
            i <= n,
            little@ + le_bytes(v as nat, (n - i) as nat) == le_bytes(x as nat, n as nat),
        decreases n - i,
    {
        let ghost l0 = little@;
        little.push((v % 256) as u8);
        proof {
            assert(little@ + le_bytes((v / 256) as nat, (n - i - 1) as nat) =~= l0 + le_bytes(
                v as nat,
                (n - i) as nat,
            ));
        }
        v = v / 256;
        i += 1;
    }
    proof {
        assert(little@ =~= le_bytes(x as nat, n as nat));
    }
    if encode == 0 {
        let mut j: usize = little.len();
        while j > 0
            invariant
                j <= little@.len(),
                stream@ == old(stream)@ + little@.subrange(j as int, little@.len() as int).reverse(),
            decreases j,
        {
            let ghost s0 = stream@;
            j -= 1;
            stream.push(little[j]);
            proof {
                assert(little@.subrange(j as int, little@.len() as int).reverse() =~= little@.subrange(
                    (j + 1) as int,
                    little@.len() as int,
                ).reverse().push(little@[j as int]));
            }
        }
        proof {
            assert(little@.subrange(0, little@.len() as int) =~= little@);
        }
    } else {
        let mut j: usize = 0;
        while j < little.len()
            invariant
                j <= little@.len(),
                stream@ == old(stream)@ + little@.subrange(0, j as int),
            decreases little@.len() - j,
        {
            stream.push(little[j]);
            j += 1;
            proof {
                assert(little@.subrange(0, j as int) =~= little@.subrange(0, j - 1).push(
                    little@[j - 1],
                ));
            }
        }
        proof {
            assert(little@.subrange(0, little@.len() as int) =~= little@);
        }
    }
}

/// Read `n` bytes at `at` of `bytes` as an unsigned integer in the byte order `encode`.
pub fn read_uint(bytes: &[u8], at: usize, n: usize, encode: u8) -> (r: u64)
    requires
        n <= 8,
        at + n <= bytes@.len(),
    ensures
        r == uint_at(bytes@, at as int, n as int, encode),
{
    let ghost b = bytes@.subrange(at as int, at + n);
    let ghost ordered = in_order(b, encode);
    let length = bytes.len();
    let end: usize = at + n;
    proof {
        lemma_pow256_values();
    }
    let mut v: u64 = 0;
    let mut i: usize = n;
    while i > 0
        invariant
            i <= n,
            n <= 8,
            end == at + n,
            end <= bytes@.len(),
            b == bytes@.subrange(at as int, at + n),
            ordered == in_order(b, encode),
            ordered.len() == n,
            v == le_value(ordered.subrange(i as int, n as int)),
            pow256(8) == 0x1_0000_0000_0000_0000,
        decreases i,
    {
        i -= 1;
        let byte: u8 = if encode == 0 {
            bytes[end - 1 - i]
        } else {
            bytes[at + i]
        };
        proof {
            assert(byte == ordered[i as int]);
            assert(ordered.subrange(i as int, n as int).drop_first() =~= ordered.subrange(
                i + 1,
                n as int,
            ));
            lemma_le_value_bound(ordered.subrange(i + 1, n as int));
            lemma_pow256_monotonic((n - i - 1) as nat, 7);
            reveal_with_fuel(pow256, 9);
        }
        v = byte as u64 + 256 * v;
    }
    proof {
        assert(ordered.subrange(0, n as int) =~= ordered);
    }
    v
}

/// `256^n`.
pub open spec fn pow256(n: nat) -> nat
    decreases n,
{
    if n == 0 {
        1
    } else {
        256 * pow256((n - 1) as nat)
    }
}

proof fn lemma_pow256_monotonic(i: nat, j: nat)
    requires
        i <= j,
    ensures
        pow256(i) <= pow256(j),
    decreases j,
{
    if i < j {
        lemma_pow256_monotonic(i, (j - 1) as nat);
    }
}

} // verus!
