//! Compression of q IPC messages as q does it (`-18!` and `-19!`): a byte-pair hashed LZ
//! scheme in groups of eight tokens, each group led by a byte of flags that tells literals
//! from back references.

use super::bytes::{read_uint, uint_at};
use vstd::prelude::*;

verus! {

//%% Compressor %%//vvvvvvvvvvvvvvvvvvvvvvvvvvvvvvvvvvvv/

/// State of the compressor before a token.
pub struct Deflate {
    /// Bit of the token in the flag byte of its group (1, 2, ..., 128), or 0 where a group
    /// starts.
    pub i: u8,
    /// Flag byte of the group so far: a set bit marks a back reference.
    pub f: u8,
    /// Hash and position of the last literal, entered into the table at the next token
    /// (a position of 0 for none).
    pub h0: int,
    pub s0: int,
    /// The last hash computed.
    pub h: int,
    /// Position of the flag byte of the group in the output.
    pub c: int,
    /// Next free position of the output.
    pub d: int,
    /// Next position of the input.
    pub s: int,
    /// For each hash of a pair of bytes, the last position that was entered for it (0 for none).
    pub table: Seq<i32>,
    /// The output buffer, as long as half the input.
    pub out: Seq<u8>,
}

/// The end of a match that compares the input at `p` with the input at `s`: `s` advances while
/// it stays below `q` and the bytes agree, `p` with it while `s` is below `q`.
pub open spec fn match_end(raw: Seq<u8>, p: int, s: int, q: int) -> int
    decreases q - s,
{
    if s < q && 0 <= p < raw.len() && 0 <= s < raw.len() && raw[p] == raw[s] {
        match_end(
            raw,
            if s + 1 < q {
                p + 1
            } else {
                p
            },
            s + 1,
            q,
        )
    } else {
        s
    }
}

/// The next bit of a flag byte after `i` (0 after the last).
pub open spec fn next_bit(i: u8) -> u8 {
    if i == 128 {
        0
    } else {
        (i * 2) as u8
    }
}

/// One token of the compressor over the input `raw` with an output of `e` bytes: `None` where
/// a group would start too close to the end of the output (the input does not compress to
/// half its size).
pub open spec fn deflate_step(raw: Seq<u8>, e: int, st: Deflate) -> Option<Deflate> {
    let t = raw.len() as int;
    if st.i == 0 && st.d > e - 17 {
        None
    } else {
        let i: u8 = if st.i == 0 {
            1
        } else {
            st.i
        };
        let f: u8 = if st.i == 0 {
            0
        } else {
            st.f
        };
        let c = if st.i == 0 {
            st.d
        } else {
            st.c
        };
        let d = if st.i == 0 {
            st.d + 1
        } else {
            st.d
        };
        let out = if st.i == 0 {
            st.out.update(st.c, st.f)
        } else {
            st.out
        };
        let tail = st.s > t - 3;
        let h = if tail {
            st.h
        } else {
            (raw[st.s] ^ raw[st.s + 1]) as int
        };
        let p = if tail {
            0
        } else {
            st.table[h] as int
        };
        let literal = tail || p == 0 || raw[st.s] != raw[p];
        let table = if st.s0 > 0 {
            st.table.update(st.h0, st.s0 as i32)
        } else {
            st.table
        };
        if literal {
            Some(
                Deflate {
                    i: next_bit(i),
                    f,
                    h0: h,
                    s0: st.s,
                    h,
                    c,
                    d: d + 1,
                    s: st.s + 1,
                    table,
                    out: out.update(d, raw[st.s]),
                },
            )
        } else {
            let r = st.s + 2;
            let q = if r + 255 > t {
                t
            } else {
                r + 255
            };
            let end = match_end(raw, p + 2, r, q);
            Some(
                Deflate {
                    i: next_bit(i),
                    f: f | i,
                    h0: st.h0,
                    s0: 0,
                    h,
                    c,
                    d: d + 2,
                    s: end,
                    table: table.update(h, st.s as i32),
                    out: out.update(d, h as u8).update(d + 1, (end - r) as u8),
                },
            )
        }
    }
}

/// The compressor from the state `st` to the end of the input: `None` where it gives up.
pub open spec fn deflate_loop(raw: Seq<u8>, e: int, st: Deflate) -> Option<Deflate>
    decreases raw.len() - st.s,
{
    if st.s >= raw.len() {
        Some(st)
    } else {
        match deflate_step(raw, e, st) {
            None => None,
            Some(next) => if st.s < next.s <= raw.len() {
                deflate_loop(raw, e, next)
            } else {
                None
            },
        }
    }
}

/// Byte `k` (0 to 3) of `x`, least significant first.
pub open spec fn byte_of(x: int, k: int) -> u8 {
    if k == 0 {
        (x % 0x100) as u8
    } else if k == 1 {
        ((x / 0x100) % 0x100) as u8
    } else if k == 2 {
        ((x / 0x1_0000) % 0x100) as u8
    } else {
        ((x / 0x100_0000) % 0x100) as u8
    }
}

/// `out` with the 4 bytes of `x`, least significant first, at `at`.
pub open spec fn put_u32_le(out: Seq<u8>, at: int, x: int) -> Seq<u8> {
    out.update(at, byte_of(x, 0)).update(at + 1, byte_of(x, 1)).update(at + 2, byte_of(x, 2)).update(
        at + 3,
        byte_of(x, 3),
    )
}

/// `out` with the 4 bytes of `x` at `at`, in the byte order `encoding` (0: big endian,
/// otherwise little endian).
pub open spec fn put_u32(out: Seq<u8>, at: int, x: int, encoding: u8) -> Seq<u8> {
    if encoding == 0 {
        out.update(at, byte_of(x, 3)).update(at + 1, byte_of(x, 2)).update(at + 2, byte_of(x, 1)).update(
            at + 3,
            byte_of(x, 0),
        )
    } else {
        put_u32_le(out, at, x)
    }
}

/// The state of the compressor at the start: the output holds the first 4 bytes of the
/// message with the compression flag set and, at 8, the length of the message in the byte
/// order `encoding`.
pub open spec fn deflate_start(raw: Seq<u8>, encoding: u8) -> Deflate {
    let e = raw.len() / 2;
    let out = Seq::new(e as nat, |j: int| 0u8);
    Deflate {
        i: 0,
        f: 0,
        h0: 0,
        s0: 0,
        h: 0,
        c: 12,
        d: 12,
        s: 8,
        table: Seq::new(256, |j: int| 0i32),
        out: put_u32(
            out.update(0, raw[0]).update(1, raw[1]).update(2, 1).update(3, raw[3]),
            8,
            raw.len() as int,
            encoding,
        ),
    }
}

/// The compressed message: `None` where the message does not compress to less than half its
/// size; else the output of the compressor, with its last flag byte, its own length at 4 in
/// the byte order `encoding`, cut to that length.
pub open spec fn deflate(raw: Seq<u8>, encoding: u8) -> Option<Seq<u8>> {
    match deflate_loop(raw, (raw.len() / 2) as int, deflate_start(raw, encoding)) {
        None => None,
        Some(st) => Some(put_u32(st.out.update(st.c, st.f), 4, st.d, encoding).take(st.d)),
    }
}

/// Room that the tokens left in a group need in the output: two bytes each.
pub open spec fn room(i: u8) -> int {
    if i == 1 {
        16
    } else if i == 2 {
        14
    } else if i == 4 {
        12
    } else if i == 8 {
        10
    } else if i == 16 {
        8
    } else if i == 32 {
        6
    } else if i == 64 {
        4
    } else if i == 128 {
        2
    } else {
        0
    }
}

/// A bit of a flag byte, or 0.
pub open spec fn flag_bit(i: u8) -> bool {
    i == 0 || i == 1 || i == 2 || i == 4 || i == 8 || i == 16 || i == 32 || i == 64 || i == 128
}

/// Write the 4 bytes of `x` at `at` of `v`, in the byte order `encoding`.
fn set_u32(v: &mut Vec<u8>, at: usize, x: usize, encoding: u8)
    requires
        at + 4 <= old(v)@.len(),
        x <= u32::MAX,
    ensures
        final(v)@ == put_u32(old(v)@, at as int, x as int, encoding),
{
    let b0 = (x % 0x100) as u8;
    let b1 = ((x / 0x100) % 0x100) as u8;
    let b2 = ((x / 0x1_0000) % 0x100) as u8;
    let b3 = ((x / 0x100_0000) % 0x100) as u8;
    let n = v.len();
    assert(at + 4 <= n);
    let a1 = at + 1;
    let a2 = at + 2;
    let a3 = at + 3;
    if encoding == 0 {
        v.set(at, b3);
        v.set(a1, b2);
        v.set(a2, b1);
        v.set(a3, b0);
    } else {
        v.set(at, b0);
        v.set(a1, b1);
        v.set(a2, b2);
        v.set(a3, b3);
    }
}

/// Compress a serialized message (header included), writing lengths in the byte order
/// `encoding`. Gives `(true, compressed)` where it compresses to less than half its size, else
/// `(false, raw)`.
pub fn compress(raw: Vec<u8>, encoding: u8) -> (r: (bool, Vec<u8>))
    requires
        34 <= raw@.len() <= i32::MAX,
    ensures
        match deflate(raw@, encoding) {
            Some(c) => r.0 && r.1@ == c,
            None => !r.0 && r.1@ == raw@,
        },
{
    let t = raw.len();
    let e = t / 2;
    let mut compressed: Vec<u8> = Vec::new();
    let mut k: usize = 0;
    while k < e
        invariant
            k <= e,
            compressed@ == Seq::new(k as nat, |j: int| 0u8),
        decreases e - k,
    {
        compressed.push(0);
        k += 1;
        assert(compressed@ =~= Seq::new(k as nat, |j: int| 0u8));
    }
    let mut a: Vec<i32> = Vec::new();
    let mut k: usize = 0;
    while k < 256
        invariant
            k <= 256,
            a@ == Seq::new(k as nat, |j: int| 0i32),
        decreases 256 - k,
    {
        a.push(0);
        k += 1;
        assert(a@ =~= Seq::new(k as nat, |j: int| 0i32));
    }
    compressed.set(0, raw[0]);
    compressed.set(1, raw[1]);
    compressed.set(2, 1);
    compressed.set(3, raw[3]);
    set_u32(&mut compressed, 8, t, encoding);
    let mut i: u8 = 0;
    let mut f: u8 = 0;
    let mut h0: usize = 0;
    let mut h: usize = 0;
    let mut s0: usize = 0;
    let mut c: usize = 12;
    let mut d: usize = 12;
    let mut s: usize = 8;
    let ghost start = deflate_start(raw@, encoding);
    assert(compressed@ =~= start.out);
    assert(a@ =~= start.table);
    while s < t
        invariant
            t == raw@.len(),
            34 <= t <= i32::MAX,
            e == t / 2,
            start == deflate_start(raw@, encoding),
            compressed@.len() == e,
            a@.len() == 256,
            8 <= s <= t,
            c < e,
            c <= d <= e,
            i != 0 ==> c < d,
            flag_bit(i),
            i != 0 ==> d + room(i) <= e,
            h < 256,
            h0 < 256,
            s0 < s,
            forall|j: int| 0 <= j < 256 ==> 0 <= #[trigger] a@[j] < s,
            deflate_loop(raw@, e as int, start) == deflate_loop(
                raw@,
                e as int,
                Deflate {
                    i,
                    f,
                    h0: h0 as int,
                    s0: s0 as int,
                    h: h as int,
                    c: c as int,
                    d: d as int,
                    s: s as int,
                    table: a@,
                    out: compressed@,
                },
            ),
        decreases t - s,
    {
        let ghost st = Deflate {
            i,
            f,
            h0: h0 as int,
            s0: s0 as int,
            h: h as int,
            c: c as int,
            d: d as int,
            s: s as int,
            table: a@,
            out: compressed@,
        };
        if i == 0 {
            if d > e - 17 {
                assert(deflate_step(raw@, e as int, st) is None);
                assert(deflate_loop(raw@, e as int, st) is None);
                assert(deflate(raw@, encoding) is None);
                return (false, raw);
            }
            i = 1;
            compressed.set(c, f);
            c = d;
            d += 1;
            f = 0;
        }
        let tail = s > t - 3;
        let mut p: usize = 0;
        let mut literal = tail;
        if !tail {
            let x: u8 = raw[s] ^ raw[s + 1];
            h = x as usize;
            p = a[h] as usize;
            literal = p == 0 || raw[s] != raw[p];
        }
        if 0 < s0 {
            a.set(h0, s0 as i32);
            s0 = 0;
        }
        if literal {
            h0 = h;
            s0 = s;
            compressed.set(d, raw[s]);
            d += 1;
            s += 1;
        } else {
            a.set(h, s as i32);
            f = f | i;
            p += 2;
            s += 2;
            let r = s;
            let q = if s + 255 > t {
                t
            } else {
                s + 255
            };
            let ghost p2 = p as int;
            while s < q && raw[p] == raw[s]
                invariant
                    r <= s <= q <= t,
                    q <= r + 255,
                    t == raw@.len(),
                    p < s,
                    match_end(raw@, p2, r as int, q as int) == match_end(
                        raw@,
                        p as int,
                        s as int,
                        q as int,
                    ),
                decreases q - s,
            {
                s += 1;
                if s < q {
                    p += 1;
                }
            }
            compressed.set(d, h as u8);
            d += 1;
            compressed.set(d, (s - r) as u8);
            d += 1;
        }
        i = if i == 128 {
            0
        } else {
            i * 2
        };
        proof {
            let next = deflate_step(raw@, e as int, st).unwrap();
            assert(compressed@ =~= next.out);
            assert(a@ =~= next.table);
        }
    }
    compressed.set(c, f);
    set_u32(&mut compressed, 4, d, encoding);
    compressed.truncate(d);
    proof {
        let st = deflate_loop(raw@, e as int, start).unwrap();
        assert(compressed@ =~= put_u32(st.out.update(st.c, st.f), 4, st.d, encoding).take(st.d));
    }
    (true, compressed)
}

//%% Decompressor %%//vvvvvvvvvvvvvvvvvvvvvvvvvvvvvvvvvvv/

/// State of the decompressor before a token.
pub struct Inflate {
    /// Next position of the output.
    pub s: int,
    /// Next position of the output whose pair of bytes is to be entered into the table.
    pub p: int,
    /// Next position of the input.
    pub d: int,
    /// Bit of the token in the flag byte of its group, or 0 where a group starts.
    pub i: usize,
    /// Flag byte of the group.
    pub f: usize,
    /// For each hash of a pair of bytes, the last position of the output entered for it.
    pub table: Seq<i32>,
    /// The output.
    pub out: Seq<u8>,
}

/// `out` after copying `n` bytes from `r` to `s`, one after the other (so that a copy may
/// read bytes it has just written).
pub open spec fn copy_run(out: Seq<u8>, s: int, r: int, n: int) -> Seq<u8>
    decreases n,
{
    if n <= 0 {
        out
    } else {
        copy_run(out.update(s, out[r]), s + 1, r + 1, n - 1)
    }
}

/// `table` after entering the positions `p` up to `end` (excluded) of `out` under the hashes
/// of their pairs of bytes.
pub open spec fn hash_run(out: Seq<u8>, table: Seq<i32>, p: int, end: int) -> Seq<i32>
    decreases end - p,
{
    if p < end {
        hash_run(out, table.update((out[p] ^ out[p + 1]) as int, p as i32), p + 1, end)
    } else {
        table
    }
}

/// The next bit of a flag byte after `i` (0 after the last).
pub open spec fn next_flag(i: usize) -> usize {
    if i * 2 == 256 {
        0
    } else {
        (i * 2) as usize
    }
}

/// One token of the decompressor over the compressed body `c`: `None` where the body ends too
/// early or a reference or a copy falls outside the output.
pub open spec fn inflate_step(c: Seq<u8>, st: Inflate) -> Option<Inflate> {
    let len = st.out.len() as int;
    if st.i == 0 && st.d >= c.len() {
        None
    } else {
        let f: usize = if st.i == 0 {
            c[st.d] as usize
        } else {
            st.f
        };
        let d = if st.i == 0 {
            st.d + 1
        } else {
            st.d
        };
        let i: usize = if st.i == 0 {
            1
        } else {
            st.i
        };
        if f & i != 0 {
            if d + 1 >= c.len() {
                None
            } else {
                let r = st.table[c[d] as int] as int;
                if !(0 <= r && r + 1 < len && st.s + 1 < len) {
                    None
                } else {
                    let out1 = st.out.update(st.s, st.out[r]);
                    let out2 = out1.update(st.s + 1, out1[r + 1]);
                    let n = c[d + 1] as int;
                    if st.s + 2 + n > len || r + 2 + n > len {
                        None
                    } else {
                        let out3 = copy_run(out2, st.s + 2, r + 2, n);
                        Some(
                            Inflate {
                                s: st.s + 2 + n,
                                p: st.s + 2 + n,
                                d: d + 2,
                                i: next_flag(i),
                                f,
                                table: hash_run(out3, st.table, st.p, st.s + 1),
                                out: out3,
                            },
                        )
                    }
                }
            }
        } else {
            if d >= c.len() {
                None
            } else {
                let out1 = st.out.update(st.s, c[d]);
                Some(
                    Inflate {
                        s: st.s + 1,
                        p: if st.p < st.s {
                            st.s
                        } else {
                            st.p
                        },
                        d: d + 1,
                        i: next_flag(i),
                        f,
                        table: hash_run(out1, st.table, st.p, st.s),
                        out: out1,
                    },
                )
            }
        }
    }
}

/// The decompressor from the state `st` until the output is full: `None` where it fails.
pub open spec fn inflate_loop(c: Seq<u8>, st: Inflate) -> Option<Inflate>
    decreases st.out.len() - st.s,
{
    if st.s >= st.out.len() {
        Some(st)
    } else {
        match inflate_step(c, st) {
            None => None,
            Some(next) => if st.s < next.s <= st.out.len() && next.out.len() == st.out.len() {
                inflate_loop(c, next)
            } else {
                None
            },
        }
    }
}

/// Length of the decompressed body: the length of the whole message, held by the first 4
/// bytes of the compressed body in the byte order `encoding`, less its header.
pub open spec fn inflated_size(c: Seq<u8>, encoding: u8) -> Option<int> {
    if c.len() < 4 {
        None
    } else {
        let u = uint_at(c, 0, 4, encoding);
        if 8 <= u < 0x8000_0000 {
            Some(u - 8)
        } else {
            None
        }
    }
}

/// The decompressed body of a compressed message whose header has been taken off: `None` where
/// it is malformed.
pub open spec fn inflate(c: Seq<u8>, encoding: u8) -> Option<Seq<u8>> {
    match inflated_size(c, encoding) {
        None => None,
        Some(n) => match inflate_loop(
            c,
            Inflate {
                s: 0,
                p: 0,
                d: 4,
                i: 0,
                f: 0,
                table: Seq::new(256, |j: int| 0i32),
                out: Seq::new(n as nat, |j: int| 0u8),
            },
        ) {
            None => None,
            Some(st) => Some(st.out),
        },
    }
}

/// Decompress the body of a compressed message (the message without its 8-byte header), in
/// the byte order `encoding`; `None` where the body is malformed.
pub fn decompress(compressed: &[u8], encoding: u8) -> (r: Option<Vec<u8>>)
    ensures
        match inflate(compressed@, encoding) {
            Some(v) => r matches Some(w) && w@ == v,
            None => r is None,
        },
        r matches Some(w) ==> w@.len() < 0x8000_0000,
{
    if compressed.len() < 4 {
        return None;
    }
    let u = read_uint(compressed, 0, 4, encoding);
    if u < 8 || u >= 0x8000_0000 {
        return None;
    }
    let size = (u - 8) as usize;
    let mut out: Vec<u8> = Vec::new();
    let mut k: usize = 0;
    while k < size
        invariant
            k <= size,
            out@ == Seq::new(k as nat, |j: int| 0u8),
        decreases size - k,
    {
        out.push(0);
        k += 1;
        assert(out@ =~= Seq::new(k as nat, |j: int| 0u8));
    }
    let mut aa: Vec<i32> = Vec::new();
    let mut k: usize = 0;
    while k < 256
        invariant
            k <= 256,
            aa@ == Seq::new(k as nat, |j: int| 0i32),
        decreases 256 - k,
    {
        aa.push(0);
        k += 1;
        assert(aa@ =~= Seq::new(k as nat, |j: int| 0i32));
    }
    let ghost start = Inflate {
        s: 0,
        p: 0,
        d: 4,
        i: 0,
        f: 0,
        table: Seq::new(256, |j: int| 0i32),
        out: Seq::new(size as nat, |j: int| 0u8),
    };
    let mut s: usize = 0;
    let mut p: usize = 0;
    let mut d: usize = 4;
    let mut i: usize = 0;
    let mut f: usize = 0;
    let len = out.len();
    assert(inflated_size(compressed@, encoding) == Some(size as int));
    assert(out@ =~= start.out);
    assert(aa@ =~= start.table);
    assert(inflate(compressed@, encoding) == match inflate_loop(compressed@, start) {
        None => None,
        Some(fin) => Some(fin.out),
    });
    while s < len
        invariant
            len == size,
            size < 0x8000_0000,
            inflate(compressed@, encoding) == match inflate_loop(compressed@, start) {
                None => None,
                Some(fin) => Some(fin.out),
            },
            d <= compressed@.len(),
            out@.len() == len,
            aa@.len() == 256,
            s <= len,
            p <= s,
            i == 0 || i == 1 || i == 2 || i == 4 || i == 8 || i == 16 || i == 32 || i == 64 || i
                == 128,
            f < 256,
            inflate_loop(compressed@, start) == inflate_loop(
                compressed@,
                Inflate { s: s as int, p: p as int, d: d as int, i, f, table: aa@, out: out@ },
            ),
        decreases len - s,
    {
        let ghost st = Inflate {
            s: s as int,
            p: p as int,
            d: d as int,
            i,
            f,
            table: aa@,
            out: out@,
        };
        if i == 0 {
            if d >= compressed.len() {
                assert(inflate_step(compressed@, st) is None);
                return None;
            }
            f = compressed[d] as usize;
            d += 1;
            i = 1;
        }
        let reference = (f & i) != 0;
        let mut n: usize = 0;
        if reference {
            if compressed.len() - d <= 1 {
                assert(inflate_step(compressed@, st) is None);
                return None;
            }
            let rr = aa[compressed[d] as usize];
            if rr < 0 || rr as usize + 1 >= len || s + 1 >= len {
                assert(inflate_step(compressed@, st) is None);
                return None;
            }
            let mut r = rr as usize;
            d += 1;
            let x = out[r];
            out.set(s, x);
            s += 1;
            r += 1;
            let y = out[r];
            out.set(s, y);
            s += 1;
            r += 1;
            n = compressed[d] as usize;
            d += 1;
            if s + n > len || r + n > len {
                assert(inflate_step(compressed@, st) is None);
                return None;
            }
            let ghost out2 = out@;
            let mut m: usize = 0;
            while m < n
                invariant
                    m <= n,
                    s + n <= len,
                    r + n <= len,
                    out@.len() == len,
                    copy_run(out2, s as int, r as int, n as int) == copy_run(
                        out@,
                        (s + m) as int,
                        (r + m) as int,
                        (n - m) as int,
                    ),
                decreases n - m,
            {
                let z = out[r + m];
                out.set(s + m, z);
                m += 1;
            }
            assert(out@ == copy_run(out2, s as int, r as int, n as int));
        } else {
            if d >= compressed.len() {
                assert(inflate_step(compressed@, st) is None);
                return None;
            }
            out.set(s, compressed[d]);
            s += 1;
            d += 1;
        }
        let ghost tbl = aa@;
        let ghost p0 = p as int;
        assert(p <= s);
        while p + 1 < s
            invariant
                s <= len,
                len < 0x8000_0000,
                out@.len() == len,
                aa@.len() == 256,
                p <= s,
                p0 <= p,
                p <= (if p0 < s - 1 {
                    s - 1
                } else {
                    p0
                }),
                hash_run(out@, tbl, p0, s - 1) == hash_run(out@, aa@, p as int, s - 1),
            decreases s - p,
        {
            let x: u8 = out[p] ^ out[p + 1];
            aa.set(x as usize, p as i32);
            p += 1;
        }
        if reference {
            s += n;
            p = s;
        }
        i = if i == 128 {
            0
        } else {
            i * 2
        };
        proof {
            let next = inflate_step(compressed@, st).unwrap();
            assert(out@ =~= next.out);
            assert(aa@ =~= next.table);
        }
    }
    Some(out)
}

} // verus!
