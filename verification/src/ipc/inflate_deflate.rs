//! Decompressing what the compressor gives yields the message back.

use super::compression::{
    copy_run, deflate, deflate_loop, deflate_start, deflate_step, flag_bit, hash_run, inflate,
    inflate_loop, inflate_step, match_end, next_bit, next_flag, put_u32, room, Deflate, Inflate,
};
use super::bytes::{le_value, uint_at};
use super::compression::{byte_of, inflated_size};
use vstd::prelude::*;

verus! {

/// The hash of the pair of bytes at `j` of `raw`.
pub open spec fn pair_hash(raw: Seq<u8>, j: int) -> int {
    (raw[j] ^ raw[j + 1]) as int
}

/// What the table of the compressor holds while lookups are still to come: each entry is an
/// earlier position of the input whose pair has that hash, and the pending literal has its
/// hash recorded.
pub open spec fn table_ok(raw: Seq<u8>, st: Deflate) -> bool {
    &&& forall|h: int|
        0 <= h < 256 && #[trigger] st.table[h] != 0 ==> 8 <= st.table[h] < st.s && pair_hash(
            raw,
            st.table[h] as int,
        ) == h
    &&& st.s0 > 0 ==> st.h0 == pair_hash(raw, st.s0)
}

/// The invariant of the compressor's state over the input `raw` with an output of `e` bytes.
pub open spec fn deflate_inv(raw: Seq<u8>, e: int, st: Deflate) -> bool {
    &&& 34 <= raw.len() <= i32::MAX
    &&& e == raw.len() / 2
    &&& 8 <= st.s <= raw.len()
    &&& 12 <= st.c <= st.d <= e && st.c < e
    &&& st.i != 0 ==> st.c < st.d && st.d + room(st.i) <= e && st.f < st.i
    &&& flag_bit(st.i)
    &&& st.out.len() == e
    &&& st.table.len() == 256
    &&& 0 <= st.h < 256 && 0 <= st.h0 < 256
    &&& st.s0 == 0 || (st.s0 == st.s - 1 && st.s0 >= 8)
    &&& st.s <= raw.len() - 3 ==> table_ok(raw, st)
}

/// Whether the bytes at `a + m` and `b + m` of `raw` agree.
pub open spec fn agree(raw: Seq<u8>, a: int, b: int, m: int) -> bool {
    raw[a + m] == raw[b + m]
}

/// `match_end` stays within its bounds and covers bytes that agree.
proof fn lemma_match_end(raw: Seq<u8>, p: int, s: int, q: int)
    requires
        0 <= p < s <= q <= raw.len(),
    ensures
        s <= match_end(raw, p, s, q) <= q,
        forall|m: int| 0 <= m < match_end(raw, p, s, q) - s ==> #[trigger] agree(raw, p, s, m),
    decreases q - s,
{
    if s < q && raw[p] == raw[s] {
        let p1 = if s + 1 < q {
            p + 1
        } else {
            p
        };
        lemma_match_end(raw, p1, s + 1, q);
        let e = match_end(raw, p1, s + 1, q);
        if s + 1 < q {
            assert forall|m: int| 0 <= m < e - s implies #[trigger] agree(raw, p, s, m) by {
                if m > 0 {
                    assert(agree(raw, p1, s + 1, m - 1));
                }
            }
        }
    }
}

/// A bit of a flag byte set on a smaller value adds it.
proof fn lemma_or_bit(f: u8, i: u8)
    requires
        i == 1 || i == 2 || i == 4 || i == 8 || i == 16 || i == 32 || i == 64 || i == 128,
        f < i,
    ensures
        (f | i) == f + i,
{
    assert((f | i) == f + i) by (bit_vector)
        requires
            i == 1 || i == 2 || i == 4 || i == 8 || i == 16 || i == 32 || i == 64 || i == 128,
            f < i,
    ;
}

/// One token of the compressor keeps its invariant and moves forward.
proof fn lemma_deflate_step(raw: Seq<u8>, e: int, st: Deflate)
    requires
        deflate_inv(raw, e, st),
        st.s < raw.len(),
        deflate_step(raw, e, st) is Some,
    ensures
        deflate_inv(raw, e, deflate_step(raw, e, st).unwrap()),
        st.s < deflate_step(raw, e, st).unwrap().s <= raw.len(),
        st.d < deflate_step(raw, e, st).unwrap().d,
{
    let t = raw.len() as int;
    let n = deflate_step(raw, e, st).unwrap();
    let i: u8 = if st.i == 0 {
        1
    } else {
        st.i
    };
    let f: u8 = if st.i == 0 {
        0
    } else {
        st.f
    };
    let tail = st.s > t - 3;
    let h = if tail {
        st.h
    } else {
        pair_hash(raw, st.s)
    };
    let p = if tail {
        0
    } else {
        st.table[h] as int
    };
    let literal = tail || p == 0 || raw[st.s] != raw[p];
    if !literal {
        lemma_or_bit(f, i);
        let r = st.s + 2;
        let q = if r + 255 > t {
            t
        } else {
            r + 255
        };
        lemma_match_end(raw, p + 2, r, q);
    }
    if n.s <= t - 3 {
        assert(table_ok(raw, st));
        assert(!tail);
        assert forall|x: int| 0 <= x < 256 && #[trigger] n.table[x] != 0 implies 8 <= n.table[x]
            < n.s && pair_hash(raw, n.table[x] as int) == x by {
            if !literal && x == h {
                assert(n.table[x] == st.s as i32);
                assert((st.s as i32) as int == st.s);
                assert(8 <= n.table[x] < n.s);
                assert(pair_hash(raw, n.table[x] as int) == x);
            } else if st.s0 > 0 && x == st.h0 {
                assert(n.table[x] == st.s0 as i32);
                assert((st.s0 as i32) as int == st.s0);
                assert(8 <= n.table[x] < n.s);
                assert(pair_hash(raw, n.table[x] as int) == x);
            } else {
                assert(n.table[x] == st.table[x]);
                assert(8 <= n.table[x] < n.s);
                assert(pair_hash(raw, n.table[x] as int) == x);
            }
        }
    }
}

/// The output of the compressor with the flag byte of its last group in place.
pub open spec fn flagged(st: Deflate) -> Seq<u8> {
    st.out.update(st.c, st.f)
}

/// The compressor runs to the end of the input with its invariant, and leaves the bytes it has
/// written before the current group's flag byte, and the flag bytes of earlier groups, as they
/// are.
proof fn lemma_loop_facts(raw: Seq<u8>, e: int, st: Deflate, fin: Deflate)
    requires
        deflate_inv(raw, e, st),
        deflate_loop(raw, e, st) == Some(fin),
    ensures
        deflate_inv(raw, e, fin),
        fin.s == raw.len(),
        st.d <= fin.d,
        st.s < raw.len() ==> st.d < fin.d,
        forall|j: int| 0 <= j < st.d && j != st.c ==> flagged(fin)[j] == #[trigger] st.out[j],
    decreases raw.len() - st.s,
{
    if st.s >= raw.len() {
        assert(fin == st);
        assert forall|j: int| 0 <= j < st.d && j != st.c implies flagged(fin)[j]
            == #[trigger] st.out[j] by {
            assert(0 <= j < st.out.len());
            assert(st.out.update(st.c, st.f)[j] == st.out[j]);
            assert(flagged(st)[j] == st.out[j]);
        }
    } else {
        let n = deflate_step(raw, e, st).unwrap();
        lemma_deflate_step(raw, e, st);
        lemma_loop_facts(raw, e, n, fin);
        assert forall|j: int| 0 <= j < st.d && j != st.c implies flagged(fin)[j]
            == #[trigger] st.out[j] by {
            assert(n.out[j] == st.out[j]);
            assert(j < n.d && j != n.c);
            assert(flagged(fin)[j] == n.out[j]);
        }
    }
}

/// Whether the next token of the compressor from `st` is a back reference.
pub open spec fn reference_next(raw: Seq<u8>, st: Deflate) -> bool {
    let t = raw.len() as int;
    let tail = st.s > t - 3;
    let h = if tail {
        st.h
    } else {
        pair_hash(raw, st.s)
    };
    let p = if tail {
        0
    } else {
        st.table[h] as int
    };
    !(tail || p == 0 || raw[st.s] != raw[p])
}

/// A value whose remainder by twice `i` is `f + b * i`, with `f` below `i`, has `f` as its
/// remainder by `i` and `b` as its bit at `i`.
proof fn lemma_split_bit(x: int, i: int, f: int, b: int)
    requires
        i > 0,
        0 <= f < i,
        b == 0 || b == 1,
        x >= 0,
        x % (2 * i) == f + b * i,
    ensures
        x % i == f,
        (x / i) % 2 == b,
{
    let q = x / (2 * i);
    assert(x == q * (2 * i) + f + b * i) by (nonlinear_arith)
        requires
            q == x / (2 * i),
            x % (2 * i) == f + b * i,
            i > 0,
    ;
    assert(x == (2 * q + b) * i + f) by (nonlinear_arith)
        requires
            x == q * (2 * i) + f + b * i,
    ;
    assert(x / i == 2 * q + b && x % i == f) by (nonlinear_arith)
        requires
            x == (2 * q + b) * i + f,
            0 <= f < i,
            i > 0,
    ;
    assert((2 * q + b) % 2 == b) by (nonlinear_arith)
        requires
            b == 0 || b == 1,
    ;
}

/// The flag byte that ends up at the flag position of the current group has below the bit of
/// the next token the bits the group has so far, and at that bit whether the next token is a
/// back reference.
proof fn lemma_flag(raw: Seq<u8>, e: int, st: Deflate, fin: Deflate)
    requires
        deflate_inv(raw, e, st),
        deflate_loop(raw, e, st) == Some(fin),
        st.i != 0,
    ensures
        (flagged(fin)[st.c] as int) % (st.i as int) == st.f,
        st.s < raw.len() ==> ((flagged(fin)[st.c] as int) / (st.i as int)) % 2 == (if reference_next(
            raw,
            st,
        ) {
            1int
        } else {
            0int
        }),
    decreases raw.len() - st.s,
{
    let x = flagged(fin)[st.c] as int;
    if st.s >= raw.len() {
        assert(fin == st);
        assert(x == st.f);
    } else {
        let n = deflate_step(raw, e, st).unwrap();
        lemma_deflate_step(raw, e, st);
        let b: int = if reference_next(raw, st) {
            1
        } else {
            0
        };
        if reference_next(raw, st) {
            lemma_or_bit(st.f, st.i);
        }
        assert(n.c == st.c);
        assert(n.f == st.f + b * st.i);
        if n.i != 0 {
            lemma_flag(raw, e, n, fin);
            assert(n.i == 2 * st.i);
            lemma_split_bit(x, st.i as int, st.f as int, b);
        } else {
            assert(st.i == 128);
            if n.s >= raw.len() {
                assert(fin == n);
                assert(x == n.f);
            } else {
                let m = deflate_step(raw, e, n).unwrap();
                lemma_deflate_step(raw, e, n);
                lemma_loop_facts(raw, e, m, fin);
                assert(m.out[n.c] == n.f);
                assert(n.c < m.d && n.c != m.c);
                assert(x == n.f);
            }
            assert(x == st.f + b * 128);
            assert(x % 128 == st.f && (x / 128) % 2 == b);
        }
    }
}

/// The bit `i` of a byte `f` is set exactly when `f / i` is odd.
proof fn lemma_bit_test(f: usize, i: usize)
    requires
        f < 256,
        i == 1 || i == 2 || i == 4 || i == 8 || i == 16 || i == 32 || i == 64 || i == 128,
    ensures
        ((f & i) != 0) == ((f / i) % 2 == 1),
{
    assert(((f & i) != 0) == ((f / i) % 2 == 1)) by (bit_vector)
        requires
            f < 256,
            i == 1 || i == 2 || i == 4 || i == 8 || i == 16 || i == 32 || i == 64 || i == 128,
    ;
}

/// Two pairs that start with the same byte and have the same hash are equal.
proof fn lemma_xor_cancel(a: u8, b: u8, c: u8)
    requires
        a ^ b == a ^ c,
    ensures
        b == c,
{
    assert(b == c) by (bit_vector)
        requires
            a ^ b == a ^ c,
    ;
}

/// A copy of `n` bytes from `r` to `s` within a prefix of `raw` (less its first 8 bytes)
/// extends the prefix where the input agrees with itself at that distance.
proof fn lemma_copy(raw: Seq<u8>, out: Seq<u8>, s: int, r: int, n: int)
    requires
        raw.len() >= 8,
        out.len() == raw.len() - 8,
        0 <= r < s,
        0 <= n,
        s + n <= out.len(),
        out.take(s) == raw.subrange(8, s + 8),
        forall|m: int| 0 <= m < n ==> #[trigger] agree(raw, r + 8, s + 8, m),
    ensures
        copy_run(out, s, r, n).len() == out.len(),
        copy_run(out, s, r, n).take(s + n) == raw.subrange(8, s + n + 8),
    decreases n,
{
    if n > 0 {
        assert(agree(raw, r + 8, s + 8, 0));
        assert(out[r] == raw[r + 8]) by {
            assert(out.take(s)[r] == out[r]);
            assert(raw.subrange(8, s + 8)[r] == raw[r + 8]);
            assert(out.take(s)[r] == raw.subrange(8, s + 8)[r]);
        }
        let out1 = out.update(s, out[r]);
        assert(out1.take(s + 1) =~= raw.subrange(8, s + 1 + 8)) by {
            assert forall|k: int| 0 <= k < s + 1 implies #[trigger] out1.take(s + 1)[k]
                == raw.subrange(8, s + 1 + 8)[k] by {
                if k < s {
                    assert(out.take(s)[k] == raw.subrange(8, s + 8)[k]);
                }
            }
        }
        assert forall|m: int| 0 <= m < n - 1 implies #[trigger] agree(raw, r + 1 + 8, s + 1 + 8, m) by {
            assert(agree(raw, r + 8, s + 8, m + 1));
        }
        lemma_copy(raw, out1, s + 1, r + 1, n - 1);
    } else {
        assert(out.take(s + n) =~= raw.subrange(8, s + n + 8));
    }
}

/// How the decompressor's state stands to the compressor's at the same token, where the
/// compressor finishes in `fin`.
pub open spec fn related(raw: Seq<u8>, fin: Deflate, st: Deflate, ds: Inflate) -> bool {
    &&& ds.s == st.s - 8
    &&& ds.d == st.d - 8
    &&& ds.i == st.i as usize
    &&& st.i != 0 ==> ds.f == flagged(fin)[st.c] as usize
    &&& ds.out.len() == raw.len() - 8
    &&& ds.out.take(ds.s) == raw.subrange(8, st.s)
    &&& ds.table.len() == 256
    &&& st.s0 == 0 ==> ds.p == ds.s
    &&& st.s0 > 0 ==> ds.p == ds.s - 1
    &&& st.s <= raw.len() - 3 ==> forall|h: int|
        0 <= h < 256 && #[trigger] st.table[h] != 0 ==> ds.table[h] == st.table[h] - 8
}

/// The table of the decompressor keeps its length.
proof fn lemma_hash_run_len(out: Seq<u8>, table: Seq<i32>, p: int, end: int)
    requires
        table.len() == 256,
    ensures
        hash_run(out, table, p, end).len() == 256,
    decreases end - p,
{
    if p < end {
        let x: u8 = out[p] ^ out[p + 1];
        lemma_hash_run_len(out, table.update(x as int, p as i32), p + 1, end);
    }
}

/// The next bit of a flag byte is the same for both.
proof fn lemma_next_flag(i: u8)
    requires
        i == 1 || i == 2 || i == 4 || i == 8 || i == 16 || i == 32 || i == 64 || i == 128,
    ensures
        next_flag(i as usize) == next_bit(i) as usize,
{
}

/// Facts of one token that both simulations use: where the token stands in the compressed
/// body, and that the decompressor reads its flag as the compressor set it.
proof fn lemma_token(
    raw: Seq<u8>,
    e: int,
    b: Seq<u8>,
    st: Deflate,
    ds: Inflate,
    fin: Deflate,
)
    requires
        deflate_inv(raw, e, st),
        deflate_loop(raw, e, st) == Some(fin),
        related(raw, fin, st, ds),
        st.s < raw.len(),
        b.len() == fin.d - 8,
        forall|k: int| 0 <= k < b.len() ==> #[trigger] b[k] == flagged(fin)[k + 8],
    ensures
        ({
            let n = deflate_step(raw, e, st).unwrap();
            let i: u8 = if st.i == 0 {
                1
            } else {
                st.i
            };
            let f: usize = if st.i == 0 {
                b[ds.d] as usize
            } else {
                ds.f
            };
            let dc = if st.i == 0 {
                st.d + 1
            } else {
                st.d
            };
            &&& deflate_inv(raw, e, n)
            &&& st.s < n.s <= raw.len()
            &&& !(ds.i == 0 && ds.d >= b.len())
            &&& f == flagged(fin)[n.c] as usize
            &&& ((f & (i as usize)) != 0) == reference_next(raw, st)
            &&& n.d <= fin.d
            &&& forall|j: int| 0 <= j < n.d && j != n.c ==> flagged(fin)[j] == #[trigger] n.out[j]
            &&& dc >= 12 && dc != n.c
            &&& n.c < dc
        }),
{
    let n = deflate_step(raw, e, st).unwrap();
    lemma_deflate_step(raw, e, st);
    lemma_loop_facts(raw, e, st, fin);
    lemma_loop_facts(raw, e, n, fin);
    let i: u8 = if st.i == 0 {
        1
    } else {
        st.i
    };
    let bit: int = if reference_next(raw, st) {
        1
    } else {
        0
    };
    let x = flagged(fin)[n.c];
    if st.i == 0 {
        lemma_flag(raw, e, n, fin);
        if reference_next(raw, st) {
            lemma_or_bit(0, 1);
        }
        assert(n.c == st.d);
        assert(b[ds.d] == flagged(fin)[st.d]);
        assert(n.f == bit);
        assert((x as int / 1) % 2 == bit);
    } else {
        lemma_flag(raw, e, st, fin);
        assert(n.c == st.c);
    }
    lemma_bit_test(x as usize, i as usize);
}

/// The common requirements of a token of the simulation.
pub open spec fn sim_ready(
    raw: Seq<u8>,
    e: int,
    b: Seq<u8>,
    st: Deflate,
    ds: Inflate,
    fin: Deflate,
) -> bool {
    &&& deflate_inv(raw, e, st)
    &&& deflate_loop(raw, e, st) == Some(fin)
    &&& related(raw, fin, st, ds)
    &&& st.s < raw.len()
    &&& b.len() == fin.d - 8
    &&& forall|k: int| 0 <= k < b.len() ==> #[trigger] b[k] == flagged(fin)[k + 8]
}

/// What one token of the simulation gives.
pub open spec fn sim_done(raw: Seq<u8>, e: int, b: Seq<u8>, st: Deflate, ds: Inflate, fin: Deflate) -> bool {
    &&& inflate_step(b, ds) is Some
    &&& related(raw, fin, deflate_step(raw, e, st).unwrap(), inflate_step(b, ds).unwrap())
    &&& ds.s < inflate_step(b, ds).unwrap().s <= ds.out.len()
    &&& inflate_step(b, ds).unwrap().out.len() == ds.out.len()
}

/// A literal of the compressor is a literal of the decompressor.
proof fn lemma_sim_literal(raw: Seq<u8>, e: int, b: Seq<u8>, st: Deflate, ds: Inflate, fin: Deflate)
    requires
        sim_ready(raw, e, b, st, ds, fin),
        !reference_next(raw, st),
    ensures
        sim_done(raw, e, b, st, ds, fin),
{
    lemma_token(raw, e, b, st, ds, fin);
    let t = raw.len() as int;
    let n = deflate_step(raw, e, st).unwrap();
    let i: u8 = if st.i == 0 {
        1
    } else {
        st.i
    };
    let dc = if st.i == 0 {
        st.d + 1
    } else {
        st.d
    };
    let dd = dc - 8;
    assert(n.out[dc] == raw[st.s]);
    assert(b[dd] == raw[st.s]);
    let out1 = ds.out.update(ds.s, b[dd]);
    let table = hash_run(out1, ds.table, ds.p, ds.s);
    lemma_hash_run_len(out1, ds.table, ds.p, ds.s);
    lemma_next_flag(i);
    let d2 = inflate_step(b, ds).unwrap();
    assert(d2.out == out1);
    assert(d2.s == ds.s + 1);
    assert(d2.d == dd + 1);
    assert(d2.table == table);
    assert(d2.p == ds.s);
    assert(out1.take(d2.s) =~= raw.subrange(8, n.s)) by {
        assert forall|k: int| 0 <= k < d2.s implies #[trigger] out1.take(d2.s)[k] == raw.subrange(
            8,
            n.s,
        )[k] by {
            if k < ds.s {
                assert(ds.out.take(ds.s)[k] == raw.subrange(8, st.s)[k]);
            }
        }
    }
    if n.s <= t - 3 {
        assert(table_ok(raw, st));
        if st.s0 > 0 {
            assert(ds.p == ds.s - 1);
            assert(out1[ds.s - 1] == raw[st.s0]) by {
                assert(ds.out.take(ds.s)[ds.s - 1] == raw.subrange(8, st.s)[ds.s - 1]);
            }
            let key: u8 = out1[ds.s - 1] ^ out1[ds.s];
            assert(key as int == st.h0);
            let t1 = ds.table.update(key as int, (ds.s - 1) as i32);
            assert(hash_run(out1, t1, ds.s, ds.s) == t1);
            assert(table == ds.table.update(key as int, (ds.s - 1) as i32));
        } else {
            assert(table == ds.table);
        }
        assert forall|x: int| 0 <= x < 256 && #[trigger] n.table[x] != 0 implies table[x] == n.table[x]
            - 8 by {
            if st.s0 > 0 && x == st.h0 {
                assert(n.table[x] == st.s0 as i32);
            } else {
                assert(n.table[x] == st.table[x]);
            }
        }
    }
}

/// A back reference of the compressor is one of the decompressor, and copies what the
/// compressor matched.
#[verifier::rlimit(50)]
proof fn lemma_sim_reference(raw: Seq<u8>, e: int, b: Seq<u8>, st: Deflate, ds: Inflate, fin: Deflate)
    requires
        sim_ready(raw, e, b, st, ds, fin),
        reference_next(raw, st),
    ensures
        sim_done(raw, e, b, st, ds, fin),
{
    lemma_token(raw, e, b, st, ds, fin);
    let t = raw.len() as int;
    let n = deflate_step(raw, e, st).unwrap();
    let i: u8 = if st.i == 0 {
        1
    } else {
        st.i
    };
    let dc = if st.i == 0 {
        st.d + 1
    } else {
        st.d
    };
    let dd = dc - 8;
    let h = pair_hash(raw, st.s);
    let p = st.table[h] as int;
    let r = st.s + 2;
    let q = if r + 255 > t {
        t
    } else {
        r + 255
    };
    let end = match_end(raw, p + 2, r, q);
    assert(table_ok(raw, st));
    assert(8 <= p < st.s);
    lemma_match_end(raw, p + 2, r, q);
    assert(n.out[dc] == h as u8);
    assert(n.out[dc + 1] == (end - r) as u8);
    assert(b[dd] == h as u8);
    assert(b[dd + 1] == (end - r) as u8);
    assert(h < 256);
    let rr = ds.table[b[dd] as int] as int;
    assert(rr == p - 8);
    let len = ds.out.len() as int;
    let S = ds.s;
    assert(ds.out[rr] == raw[p]) by {
        assert(ds.out.take(S)[rr] == raw.subrange(8, st.s)[rr]);
    }
    let out1 = ds.out.update(S, ds.out[rr]);
    assert(raw[p] == raw[st.s]);
    lemma_xor_cancel(raw[p], raw[p + 1], raw[st.s + 1]);
    assert(out1[rr + 1] == raw[p + 1]) by {
        if rr + 1 < S {
            assert(ds.out.take(S)[rr + 1] == raw.subrange(8, st.s)[rr + 1]);
        }
    }
    let out2 = out1.update(S + 1, out1[rr + 1]);
    let nn = (end - r) as int;
    assert(b[dd + 1] as int == nn);
    assert(out2.take(S + 2) =~= raw.subrange(8, st.s + 2)) by {
        assert forall|k: int| 0 <= k < S + 2 implies #[trigger] out2.take(S + 2)[k] == raw.subrange(
            8,
            st.s + 2,
        )[k] by {
            if k < S {
                assert(ds.out.take(S)[k] == raw.subrange(8, st.s)[k]);
            }
        }
    }
    assert forall|m: int| 0 <= m < nn implies #[trigger] agree(raw, rr + 2 + 8, S + 2 + 8, m) by {
        assert(agree(raw, p + 2, r, m));
    }
    lemma_copy(raw, out2, S + 2, rr + 2, nn);
    let out3 = copy_run(out2, S + 2, rr + 2, nn);
    let table = hash_run(out3, ds.table, ds.p, S + 1);
    lemma_hash_run_len(out3, ds.table, ds.p, S + 1);
    lemma_next_flag(i);
    let d2 = inflate_step(b, ds).unwrap();
    assert(d2.out == out3);
    assert(d2.s == S + 2 + nn);
    assert(d2.table == table);
    assert(out3.take(d2.s) == raw.subrange(8, n.s));
    if n.s <= t - 3 {
        assert(out3[S] == raw[st.s]) by {
            assert(out3.take(d2.s)[S] == raw.subrange(8, n.s)[S]);
        }
        assert(out3[S + 1] == raw[st.s + 1]) by {
            assert(out3.take(d2.s)[S + 1] == raw.subrange(8, n.s)[S + 1]);
        }
        let kh: u8 = out3[S] ^ out3[S + 1];
        assert(kh as int == h);
        if st.s0 > 0 {
            assert(out3[S - 1] == raw[st.s0]) by {
                assert(out3.take(d2.s)[S - 1] == raw.subrange(8, n.s)[S - 1]);
            }
            let k0: u8 = out3[S - 1] ^ out3[S];
            assert(k0 as int == st.h0);
            let t1 = ds.table.update(k0 as int, (S - 1) as i32);
            let t2 = t1.update(kh as int, S as i32);
            assert(hash_run(out3, t2, S + 1, S + 1) == t2);
            assert(hash_run(out3, t1, S, S + 1) == t2);
            assert(table == t2);
        } else {
            let t2 = ds.table.update(kh as int, S as i32);
            assert(hash_run(out3, t2, S + 1, S + 1) == t2);
            assert(table == t2);
        }
        assert forall|x: int| 0 <= x < 256 && #[trigger] n.table[x] != 0 implies table[x] == n.table[x]
            - 8 by {
            if x == h {
                assert(n.table[x] == st.s as i32);
            } else if st.s0 > 0 && x == st.h0 {
                assert(n.table[x] == st.s0 as i32);
            } else {
                assert(n.table[x] == st.table[x]);
            }
        }
    }
}

/// The decompressor follows the compressor token by token to the end of the message.
proof fn lemma_simulate(raw: Seq<u8>, e: int, b: Seq<u8>, st: Deflate, ds: Inflate, fin: Deflate)
    requires
        deflate_inv(raw, e, st),
        deflate_loop(raw, e, st) == Some(fin),
        related(raw, fin, st, ds),
        b.len() == fin.d - 8,
        forall|k: int| 0 <= k < b.len() ==> #[trigger] b[k] == flagged(fin)[k + 8],
    ensures
        inflate_loop(b, ds) matches Some(x) && x.out == raw.skip(8),
    decreases raw.len() - st.s,
{
    if st.s >= raw.len() {
        assert(ds.out.take(ds.s) =~= ds.out);
        assert(ds.out =~= raw.skip(8));
    } else {
        if reference_next(raw, st) {
            lemma_sim_reference(raw, e, b, st, ds, fin);
        } else {
            lemma_sim_literal(raw, e, b, st, ds, fin);
        }
        let n = deflate_step(raw, e, st).unwrap();
        let d2 = inflate_step(b, ds).unwrap();
        lemma_deflate_step(raw, e, st);
        assert(deflate_loop(raw, e, st) == deflate_loop(raw, e, n));
        lemma_simulate(raw, e, b, n, d2, fin);
        assert(inflate_loop(b, ds) == inflate_loop(b, d2));
    }
}

/// Four bytes of a number below 2^32, least significant first, read back give the number.
proof fn lemma_bytes_of(x: u32)
    ensures
        le_value(seq![byte_of(x as int, 0), byte_of(x as int, 1), byte_of(x as int, 2), byte_of(x as int, 3)])
            == x,
{
    let s = seq![byte_of(x as int, 0), byte_of(x as int, 1), byte_of(x as int, 2), byte_of(x as int, 3)];
    reveal_with_fuel(le_value, 5);
    assert(s.drop_first() =~= seq![byte_of(x as int, 1), byte_of(x as int, 2), byte_of(x as int, 3)]);
    assert(s.drop_first().drop_first() =~= seq![byte_of(x as int, 2), byte_of(x as int, 3)]);
    assert(s.drop_first().drop_first().drop_first() =~= seq![byte_of(x as int, 3)]);
    assert(s.drop_first().drop_first().drop_first().drop_first() =~= Seq::<u8>::empty());
    assert(x % 256 + 256 * ((x / 256) % 256 + 256 * ((x / 65536) % 256 + 256 * ((x / 16777216)
        % 256))) == x) by (bit_vector);
}

/// Four bytes of a number below 2^32 written in a byte order are read back, in that byte
/// order, as the number.
proof fn lemma_u32_at(out: Seq<u8>, at: int, x: u32, encoding: u8)
    requires
        0 <= at,
        at + 4 <= out.len(),
    ensures
        uint_at(put_u32(out, at, x as int, encoding), at, 4, encoding) == x,
{
    let p = put_u32(out, at, x as int, encoding);
    let b = seq![byte_of(x as int, 0), byte_of(x as int, 1), byte_of(x as int, 2), byte_of(x as int, 3)];
    if encoding == 0 {
        assert(p.subrange(at, at + 4).reverse() =~= b);
    } else {
        assert(p.subrange(at, at + 4) =~= b);
    }
    lemma_bytes_of(x);
}

/// Decompressing a message that the compressor compressed, in the same byte order, gives the
/// message back (without its header, which the receiver reads before the body).
pub proof fn law_inflate_deflate(raw: Seq<u8>, encoding: u8)
    requires
        34 <= raw.len() <= i32::MAX,
        deflate(raw, encoding) is Some,
    ensures
        inflate(deflate(raw, encoding).unwrap().skip(8), encoding) == Some(raw.skip(8)),
{
    let t = raw.len() as int;
    let e = t / 2;
    let st = deflate_start(raw, encoding);
    let fin = deflate_loop(raw, e, st).unwrap();
    assert(deflate_inv(raw, e, st));
    lemma_loop_facts(raw, e, st, fin);
    let c = deflate(raw, encoding).unwrap();
    assert(c == put_u32(flagged(fin), 4, fin.d, encoding).take(fin.d));
    let b = c.skip(8);
    assert(b.len() == fin.d - 8);
    assert forall|k: int| 0 <= k < b.len() implies #[trigger] b[k] == flagged(fin)[k + 8] by {
        assert(b[k] == c[k + 8]);
    }
    assert forall|k: int| 0 <= k < 4 implies #[trigger] b[k] == st.out[k + 8] by {
        assert(flagged(fin)[k + 8] == st.out[k + 8]);
    }
    assert(b.subrange(0, 4) =~= st.out.subrange(8, 12));
    let pre = Seq::new(e as nat, |j: int| 0u8).update(0, raw[0]).update(1, raw[1]).update(2, 1).update(
        3,
        raw[3],
    );
    lemma_u32_at(pre, 8, t as u32, encoding);
    assert(uint_at(b, 0, 4, encoding) == t);
    assert(inflated_size(b, encoding) == Some(t - 8));
    let ds = Inflate {
        s: 0,
        p: 0,
        d: 4,
        i: 0,
        f: 0,
        table: Seq::new(256, |j: int| 0i32),
        out: Seq::new((t - 8) as nat, |j: int| 0u8),
    };
    assert(ds.out.take(0) =~= raw.subrange(8, 8));
    assert(related(raw, fin, st, ds));
    lemma_simulate(raw, e, b, st, ds, fin);
}

/// A compressed message keeps the first bytes of the header with the compression flag set, is
/// at most half as long as the message, and records its own length at 4 and the length of the
/// message at 8, in the byte order it was compressed in.
pub proof fn law_deflate_frame(raw: Seq<u8>, encoding: u8)
    requires
        34 <= raw.len() <= i32::MAX,
        deflate(raw, encoding) is Some,
    ensures
        ({
            let c = deflate(raw, encoding).unwrap();
            &&& 12 <= c.len() <= raw.len() / 2
            &&& c[0] == raw[0] && c[1] == raw[1] && c[2] == 1 && c[3] == raw[3]
            &&& uint_at(c, 4, 4, encoding) == c.len()
            &&& uint_at(c, 8, 4, encoding) == raw.len()
        }),
{
    let t = raw.len() as int;
    let e = t / 2;
    let st = deflate_start(raw, encoding);
    let fin = deflate_loop(raw, e, st).unwrap();
    assert(deflate_inv(raw, e, st));
    lemma_loop_facts(raw, e, st, fin);
    let c = deflate(raw, encoding).unwrap();
    let full = put_u32(flagged(fin), 4, fin.d, encoding);
    assert(c == full.take(fin.d));
    assert forall|k: int| 0 <= k < 4 || 8 <= k < 12 implies #[trigger] c[k] == st.out[k] by {
        assert(flagged(fin)[k] == st.out[k]);
    }
    assert(c.subrange(4, 8) =~= full.subrange(4, 8));
    lemma_u32_at(flagged(fin), 4, fin.d as u32, encoding);
    assert(c.subrange(8, 12) =~= st.out.subrange(8, 12));
    let pre = Seq::new(e as nat, |j: int| 0u8).update(0, raw[0]).update(1, raw[1]).update(2, 1).update(
        3,
        raw[3],
    );
    lemma_u32_at(pre, 8, t as u32, encoding);
}

} // verus!
