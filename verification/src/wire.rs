//! The primitive wire encoding: base-128 varints and the 32-bit integer
//! conversions that ride on them.
//!
//! A varint stores an unsigned value seven bits per byte, least
//! significant group first; every byte but the last has its high bit set.
//! A signed 32-bit value is carried as the varint of its 64-bit
//! sign extension, and read back by truncating the decoded value to its
//! low 32 bits.

use vstd::prelude::*;
use vstd::arithmetic::div_mod::{lemma_fundamental_div_mod, lemma_mod_multiples_vanish, lemma_small_mod};

verus! {

/// Decoded varint values are capped at 64 bits: a continuation value `v`
/// may only be extended when `128 * v + 127` still fits in a `u64`.
pub const VARINT_CONT_MAX: u64 = 0x0200_0000_0000_0000;

/// The varint encoding of `n`: seven bits per byte, least significant
/// group first, the high bit marking a continuation.
pub open spec fn varint(n: nat) -> Seq<u8>
    decreases n,
{
    if n < 128 {
        seq![n as u8]
    } else {
        seq![(n % 128 + 128) as u8] + varint(n / 128)
    }
}

/// Reads one varint from the front of `s`: the value and how many bytes
/// it occupied.  `None` when `s` is empty, ends inside a continuation, or
/// carries a value that does not fit in 64 bits.
pub open spec fn varint_dec(s: Seq<u8>) -> Option<(u64, int)>
    decreases s.len(),
{
    if s.len() == 0 {
        None
    } else if s[0] < 128 {
        Some((s[0] as u64, 1))
    } else {
        match varint_dec(s.skip(1)) {
            None => None,
            Some((v, k)) => if v < VARINT_CONT_MAX {
                Some((((s[0] - 128) + 128 * v) as u64, k + 1))
            } else {
                None
            },
        }
    }
}

/// Decoding starts over cleanly after an encoded varint: the front of
/// `varint(n) + rest` reads back as exactly `n`.
pub proof fn lemma_varint_roundtrip(n: u64, rest: Seq<u8>)
    ensures
        varint_dec(varint(n as nat) + rest) == Some((n, varint(n as nat).len() as int)),
    decreases n,
{
    let s = varint(n as nat) + rest;
    if n < 128 {
        assert(s[0] == n as u8);
        assert(varint(n as nat).len() == 1);
    } else {
        let q = n / 128;
        let r = n % 128;
        assert(q < VARINT_CONT_MAX) by {
            lemma_fundamental_div_mod(n as int, 128);
        };
        assert(s[0] == (r + 128) as u8);
        assert(s[0] >= 128);
        assert(s.skip(1) =~= varint(q as nat) + rest);
        lemma_varint_roundtrip(q, rest);
        assert(varint_dec(s.skip(1)) == Some((q, varint(q as nat).len() as int)));
        assert((s[0] - 128) + 128 * q == n) by {
            lemma_fundamental_div_mod(n as int, 128);
        };
        assert(varint(n as nat).len() == 1 + varint(q as nat).len());
    }
}

/// The 64-bit sign extension of a 32-bit value, as protobuf varints carry
/// signed integers.
pub open spec fn sx64(a: i32) -> u64 {
    if a >= 0 {
        a as u64
    } else {
        (a + 0x1_0000_0000_0000_0000) as u64
    }
}

/// Truncation of a 64-bit decoded value to a signed 32-bit value: the low
/// 32 bits, reinterpreted in two's complement.
pub open spec fn trunc32(v: u64) -> i32 {
    let m = (v as int) % 0x1_0000_0000;
    if m < 0x8000_0000 {
        m as i32
    } else {
        (m - 0x1_0000_0000) as i32
    }
}

/// Truncation undoes sign extension: a 32-bit value survives the trip
/// through its 64-bit wire form.
pub proof fn lemma_trunc32_sx64(a: i32)
    ensures
        trunc32(sx64(a)) == a,
{
    if a >= 0 {
        lemma_small_mod(a as nat, 0x1_0000_0000);
    } else {
        let x = a + 0x1_0000_0000;
        assert(sx64(a) as int == 0x1_0000_0000 * 0xFFFF_FFFF + x);
        lemma_mod_multiples_vanish(0xFFFF_FFFF, x, 0x1_0000_0000);
        lemma_small_mod(x as nat, 0x1_0000_0000);
    }
}

/// Sign-extend a 32-bit value to its 64-bit wire form.
pub fn sign_extend_i32(a: i32) -> (r: u64)
    ensures
        r == sx64(a),
{
    if a >= 0 {
        a as u64
    } else {
        let neg: u64 = (-(a as i64)) as u64;
        u64::MAX - neg + 1
    }
}

/// Truncate a decoded 64-bit value to a signed 32-bit value.
pub fn truncate_to_i32(v: u64) -> (r: i32)
    ensures
        r == trunc32(v),
{
    let m: u64 = v % 0x1_0000_0000;
    if m < 0x8000_0000 {
        m as i32
    } else {
        ((m as i64) - 0x1_0000_0000i64) as i32
    }
}

/// Append the varint encoding of `n` to `out`.
pub fn encode_varint(out: &mut Vec<u8>, n: u64)
    ensures
        final(out)@ == old(out)@ + varint(n as nat),
{
    let mut x = n;
    while x >= 128
        invariant
            out@ + varint(x as nat) == old(out)@ + varint(n as nat),
        decreases x,
    {
        let b: u8 = (x % 128) as u8 + 128;
        let ghost prev = out@;
        let ghost xprev = x;
        out.push(b);
        x = x / 128;
        proof {
            assert(varint(xprev as nat) == seq![b] + varint(x as nat));
            assert(out@ + varint(x as nat) =~= prev + varint(xprev as nat));
        }
    }
    let ghost prev = out@;
    out.push(x as u8);
    proof {
        assert(varint(x as nat) =~= seq![x as u8]);
        assert(out@ =~= prev + varint(x as nat));
        assert(out@ =~= old(out)@ + varint(n as nat));
    }
}

/// Read one varint from `buf` starting at `i`: the value and the index
/// just past it.
pub fn decode_varint_at(buf: &[u8], i: usize) -> (r: Option<(u64, usize)>)
    requires
        i <= buf@.len(),
    ensures
        match r {
            Some(vj) => {
                &&& varint_dec(buf@.skip(i as int)) == Some((vj.0, vj.1 - i as int))
                &&& i < vj.1 <= buf@.len()
            },
            None => varint_dec(buf@.skip(i as int)) is None,
        },
    decreases buf@.len() - i,
{
    if i == buf.len() {
        None
    } else {
        let b = buf[i];
        assert(buf@.skip(i as int)[0] == b);
        if b < 128 {
            Some((b as u64, i + 1))
        } else {
            assert(buf@.skip(i as int).skip(1) =~= buf@.skip(i as int + 1));
            match decode_varint_at(buf, i + 1) {
                None => None,
                Some((v, j)) => {
                    if v < VARINT_CONT_MAX {
                        Some(((b - 128) as u64 + 128 * v, j))
                    } else {
                        None
                    }
                },
            }
        }
    }
}

} // verus!
