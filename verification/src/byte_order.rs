//! Little- and big-endian interpretations of byte strings as natural
//! numbers, and the byte-level helpers the rest of the crate builds its
//! encodings on.

use vstd::prelude::*;
use vstd::arithmetic::div_mod::{
    lemma_div_denominator, lemma_div_multiples_vanish_fancy, lemma_fundamental_div_mod,
    lemma_mod_multiples_vanish, lemma_small_mod,
};

verus! {

/// The value of the bytes of `s` from position `i` on, read little-endian:
/// the byte at `i` is the least significant.
pub open spec fn le_nat_from(s: Seq<u8>, i: int) -> nat
    decreases s.len() - i,
{
    if i < 0 || i >= s.len() {
        0
    } else {
        (s[i] + 256 * le_nat_from(s, i + 1)) as nat
    }
}

/// The value of all of `s`, read little-endian.
pub open spec fn le_nat(s: Seq<u8>) -> nat {
    le_nat_from(s, 0)
}

/// The value of all of `s`, read big-endian: the first byte is the most
/// significant.
pub open spec fn be_nat(s: Seq<u8>) -> nat
    decreases s.len(),
{
    if s.len() == 0 {
        0
    } else {
        (be_nat(s.take(s.len() as int - 1)) * 256 + s[s.len() as int - 1]) as nat
    }
}

/// The value of the eight bytes of `s` at `i`, read little-endian.
pub open spec fn le_limb(s: Seq<u8>, i: int) -> nat {
    (s[i] + s[i + 1] * 0x100 + s[i + 2] * 0x10000 + s[i + 3] * 0x1000000 + s[i + 4] * 0x100000000
        + s[i + 5] * 0x10000000000 + s[i + 6] * 0x1000000000000 + s[i + 7]
        * 0x100000000000000) as nat
}

/// The value of the eight bytes of `s` at `i`, read big-endian.
pub open spec fn be_limb(s: Seq<u8>, i: int) -> nat {
    (s[i] * 0x100000000000000 + s[i + 1] * 0x1000000000000 + s[i + 2] * 0x10000000000 + s[i + 3]
        * 0x100000000 + s[i + 4] * 0x1000000 + s[i + 5] * 0x10000 + s[i + 6] * 0x100 + s[i
        + 7]) as nat
}

/// The eight bytes of a 64-bit value in little-endian order.
pub open spec fn u64_le_seq(x: u64) -> Seq<u8> {
    seq![
        (x as nat % 256) as u8,
        (x as nat / 0x100 % 256) as u8,
        (x as nat / 0x10000 % 256) as u8,
        (x as nat / 0x1000000 % 256) as u8,
        (x as nat / 0x100000000 % 256) as u8,
        (x as nat / 0x10000000000 % 256) as u8,
        (x as nat / 0x1000000000000 % 256) as u8,
        (x as nat / 0x100000000000000 % 256) as u8,
    ]
}

/// The four bytes of a 32-bit value in little-endian order.
pub open spec fn u32_le_seq(x: u32) -> Seq<u8> {
    seq![
        (x as nat % 256) as u8,
        (x as nat / 0x100 % 256) as u8,
        (x as nat / 0x10000 % 256) as u8,
        (x as nat / 0x1000000 % 256) as u8,
    ]
}

/// Reading little-endian from `i` splits into one 64-bit limb and the rest.
pub proof fn lemma_le_split8(s: Seq<u8>, i: int)
    requires
        0 <= i,
        i + 8 <= s.len(),
    ensures
        le_nat_from(s, i) == le_limb(s, i) + 0x10000000000000000nat * le_nat_from(s, i + 8),
    decreases s.len() - i,
{
    assert(le_nat_from(s, i) == (s[i] + 256 * le_nat_from(s, i + 1)) as nat);
    assert(le_nat_from(s, i + 1) == (s[i + 1] + 256 * le_nat_from(s, i + 2)) as nat);
    assert(le_nat_from(s, i + 2) == (s[i + 2] + 256 * le_nat_from(s, i + 3)) as nat);
    assert(le_nat_from(s, i + 3) == (s[i + 3] + 256 * le_nat_from(s, i + 4)) as nat);
    assert(le_nat_from(s, i + 4) == (s[i + 4] + 256 * le_nat_from(s, i + 5)) as nat);
    assert(le_nat_from(s, i + 5) == (s[i + 5] + 256 * le_nat_from(s, i + 6)) as nat);
    assert(le_nat_from(s, i + 6) == (s[i + 6] + 256 * le_nat_from(s, i + 7)) as nat);
    assert(le_nat_from(s, i + 7) == (s[i + 7] + 256 * le_nat_from(s, i + 8)) as nat);
}

/// Reading big-endian splits into the prefix and one final 64-bit limb.
pub proof fn lemma_be_split8(s: Seq<u8>)
    requires
        s.len() >= 8,
    ensures
        be_nat(s) == be_nat(s.take(s.len() as int - 8)) * 0x10000000000000000nat + be_limb(
            s,
            s.len() as int - 8,
        ),
{
    let n = s.len() as int;
    assert(s.take(n - 1).take(n - 2) =~= s.take(n - 2));
    assert(s.take(n - 2).take(n - 3) =~= s.take(n - 3));
    assert(s.take(n - 3).take(n - 4) =~= s.take(n - 4));
    assert(s.take(n - 4).take(n - 5) =~= s.take(n - 5));
    assert(s.take(n - 5).take(n - 6) =~= s.take(n - 6));
    assert(s.take(n - 6).take(n - 7) =~= s.take(n - 7));
    assert(s.take(n - 7).take(n - 8) =~= s.take(n - 8));
    assert(be_nat(s) == be_nat(s.take(n - 1)) * 256 + s[n - 1]);
    assert(be_nat(s.take(n - 1)) == be_nat(s.take(n - 2)) * 256 + s[n - 2]);
    assert(be_nat(s.take(n - 2)) == be_nat(s.take(n - 3)) * 256 + s[n - 3]);
    assert(be_nat(s.take(n - 3)) == be_nat(s.take(n - 4)) * 256 + s[n - 4]);
    assert(be_nat(s.take(n - 4)) == be_nat(s.take(n - 5)) * 256 + s[n - 5]);
    assert(be_nat(s.take(n - 5)) == be_nat(s.take(n - 6)) * 256 + s[n - 6]);
    assert(be_nat(s.take(n - 6)) == be_nat(s.take(n - 7)) * 256 + s[n - 7]);
    assert(be_nat(s.take(n - 7)) == be_nat(s.take(n - 8)) * 256 + s[n - 8]);
}

/// A 64-bit value is the little-endian sum of its eight bytes.
pub proof fn lemma_u64_byte_sum(w: u64)
    ensures
        (w as nat % 256) + (w as nat / 0x100 % 256) * 0x100 + (w as nat / 0x10000 % 256) * 0x10000
            + (w as nat / 0x1000000 % 256) * 0x1000000 + (w as nat / 0x100000000 % 256)
            * 0x100000000 + (w as nat / 0x10000000000 % 256) * 0x10000000000 + (w as nat
            / 0x1000000000000 % 256) * 0x1000000000000 + (w as nat / 0x100000000000000 % 256)
            * 0x100000000000000 == w,
{
    let x = w as int;
    lemma_fundamental_div_mod(x, 0x100);
    lemma_div_denominator(x, 0x100, 0x100);
    lemma_fundamental_div_mod(x / 0x100, 0x100);
    lemma_div_denominator(x, 0x10000, 0x100);
    lemma_fundamental_div_mod(x / 0x10000, 0x100);
    lemma_div_denominator(x, 0x1000000, 0x100);
    lemma_fundamental_div_mod(x / 0x1000000, 0x100);
    lemma_div_denominator(x, 0x100000000, 0x100);
    lemma_fundamental_div_mod(x / 0x100000000, 0x100);
    lemma_div_denominator(x, 0x10000000000, 0x100);
    lemma_fundamental_div_mod(x / 0x10000000000, 0x100);
    lemma_div_denominator(x, 0x1000000000000, 0x100);
    lemma_fundamental_div_mod(x / 0x1000000000000, 0x100);
    lemma_div_denominator(x, 0x100000000000000, 0x100);
    lemma_fundamental_div_mod(x / 0x100000000000000, 0x100);
    assert(x / 0x10000000000000000 == 0);
}

/// The digits of a little-endian byte sum can be read back off the
/// value.
proof fn lemma_le8_extract(b0: u8, b1: u8, b2: u8, b3: u8, b4: u8, b5: u8, b6: u8, b7: u8, x: u64)
    requires
        x == b0 * 1 + b1 * 0x100 + b2 * 0x10000 + b3 * 0x1000000 + b4 * 0x100000000 + b5 * 0x10000000000 + b6 * 0x1000000000000 + b7 * 0x100000000000000,
    ensures
        x as nat % 256 == b0,
        x as nat / 0x100 % 256 == b1,
        x as nat / 0x10000 % 256 == b2,
        x as nat / 0x1000000 % 256 == b3,
        x as nat / 0x100000000 % 256 == b4,
        x as nat / 0x10000000000 % 256 == b5,
        x as nat / 0x1000000000000 % 256 == b6,
        x as nat / 0x100000000000000 % 256 == b7,
{
    let low0: int = 0;
    let high0: int = b1 as int * 1 + b2 as int * 0x100 + b3 as int * 0x10000 + b4 as int * 0x1000000 + b5 as int * 0x100000000 + b6 as int * 0x10000000000 + b7 as int * 0x1000000000000;
    assert(x == 1 * (b0 + 256 * high0) + low0);
    lemma_div_multiples_vanish_fancy(b0 + 256 * high0, low0, 1);
    lemma_mod_multiples_vanish(high0, b0 as int, 256);
    lemma_small_mod(b0 as nat, 256);
    let low1: int = b0 as int * 1;
    let high1: int = b2 as int * 1 + b3 as int * 0x100 + b4 as int * 0x10000 + b5 as int * 0x1000000 + b6 as int * 0x100000000 + b7 as int * 0x10000000000;
    assert(x == 0x100 * (b1 + 256 * high1) + low1);
    lemma_div_multiples_vanish_fancy(b1 + 256 * high1, low1, 0x100);
    lemma_mod_multiples_vanish(high1, b1 as int, 256);
    lemma_small_mod(b1 as nat, 256);
    let low2: int = b0 as int * 1 + b1 as int * 0x100;
    let high2: int = b3 as int * 1 + b4 as int * 0x100 + b5 as int * 0x10000 + b6 as int * 0x1000000 + b7 as int * 0x100000000;
    assert(x == 0x10000 * (b2 + 256 * high2) + low2);
    lemma_div_multiples_vanish_fancy(b2 + 256 * high2, low2, 0x10000);
    lemma_mod_multiples_vanish(high2, b2 as int, 256);
    lemma_small_mod(b2 as nat, 256);
    let low3: int = b0 as int * 1 + b1 as int * 0x100 + b2 as int * 0x10000;
    let high3: int = b4 as int * 1 + b5 as int * 0x100 + b6 as int * 0x10000 + b7 as int * 0x1000000;
    assert(x == 0x1000000 * (b3 + 256 * high3) + low3);
    lemma_div_multiples_vanish_fancy(b3 + 256 * high3, low3, 0x1000000);
    lemma_mod_multiples_vanish(high3, b3 as int, 256);
    lemma_small_mod(b3 as nat, 256);
    let low4: int = b0 as int * 1 + b1 as int * 0x100 + b2 as int * 0x10000 + b3 as int * 0x1000000;
    let high4: int = b5 as int * 1 + b6 as int * 0x100 + b7 as int * 0x10000;
    assert(x == 0x100000000 * (b4 + 256 * high4) + low4);
    lemma_div_multiples_vanish_fancy(b4 + 256 * high4, low4, 0x100000000);
    lemma_mod_multiples_vanish(high4, b4 as int, 256);
    lemma_small_mod(b4 as nat, 256);
    let low5: int = b0 as int * 1 + b1 as int * 0x100 + b2 as int * 0x10000 + b3 as int * 0x1000000 + b4 as int * 0x100000000;
    let high5: int = b6 as int * 1 + b7 as int * 0x100;
    assert(x == 0x10000000000 * (b5 + 256 * high5) + low5);
    lemma_div_multiples_vanish_fancy(b5 + 256 * high5, low5, 0x10000000000);
    lemma_mod_multiples_vanish(high5, b5 as int, 256);
    lemma_small_mod(b5 as nat, 256);
    let low6: int = b0 as int * 1 + b1 as int * 0x100 + b2 as int * 0x10000 + b3 as int * 0x1000000 + b4 as int * 0x100000000 + b5 as int * 0x10000000000;
    let high6: int = b7 as int * 1;
    assert(x == 0x1000000000000 * (b6 + 256 * high6) + low6);
    lemma_div_multiples_vanish_fancy(b6 + 256 * high6, low6, 0x1000000000000);
    lemma_mod_multiples_vanish(high6, b6 as int, 256);
    lemma_small_mod(b6 as nat, 256);
    let low7: int = b0 as int * 1 + b1 as int * 0x100 + b2 as int * 0x10000 + b3 as int * 0x1000000 + b4 as int * 0x100000000 + b5 as int * 0x10000000000 + b6 as int * 0x1000000000000;
    let high7: int = 0;
    assert(x == 0x100000000000000 * (b7 + 256 * high7) + low7);
    lemma_div_multiples_vanish_fancy(b7 + 256 * high7, low7, 0x100000000000000);
    lemma_mod_multiples_vanish(high7, b7 as int, 256);
    lemma_small_mod(b7 as nat, 256);
}

/// The digits of a little-endian byte sum can be read back off the
/// value.
proof fn lemma_le4_extract(b0: u8, b1: u8, b2: u8, b3: u8, x: u32)
    requires
        x == b0 * 1 + b1 * 0x100 + b2 * 0x10000 + b3 * 0x1000000,
    ensures
        x as nat % 256 == b0,
        x as nat / 0x100 % 256 == b1,
        x as nat / 0x10000 % 256 == b2,
        x as nat / 0x1000000 % 256 == b3,
{
    let low0: int = 0;
    let high0: int = b1 as int * 1 + b2 as int * 0x100 + b3 as int * 0x10000;
    assert(x == 1 * (b0 + 256 * high0) + low0);
    lemma_div_multiples_vanish_fancy(b0 + 256 * high0, low0, 1);
    lemma_mod_multiples_vanish(high0, b0 as int, 256);
    lemma_small_mod(b0 as nat, 256);
    let low1: int = b0 as int * 1;
    let high1: int = b2 as int * 1 + b3 as int * 0x100;
    assert(x == 0x100 * (b1 + 256 * high1) + low1);
    lemma_div_multiples_vanish_fancy(b1 + 256 * high1, low1, 0x100);
    lemma_mod_multiples_vanish(high1, b1 as int, 256);
    lemma_small_mod(b1 as nat, 256);
    let low2: int = b0 as int * 1 + b1 as int * 0x100;
    let high2: int = b3 as int * 1;
    assert(x == 0x10000 * (b2 + 256 * high2) + low2);
    lemma_div_multiples_vanish_fancy(b2 + 256 * high2, low2, 0x10000);
    lemma_mod_multiples_vanish(high2, b2 as int, 256);
    lemma_small_mod(b2 as nat, 256);
    let low3: int = b0 as int * 1 + b1 as int * 0x100 + b2 as int * 0x10000;
    let high3: int = 0;
    assert(x == 0x1000000 * (b3 + 256 * high3) + low3);
    lemma_div_multiples_vanish_fancy(b3 + 256 * high3, low3, 0x1000000);
    lemma_mod_multiples_vanish(high3, b3 as int, 256);
    lemma_small_mod(b3 as nat, 256);
}

/// Reads the eight bytes at `off` of a slice as a little-endian 64-bit
/// value: the bytes are exactly the value's little-endian spelling.
pub(crate) fn read_u64_le(bytes: &[u8], off: usize) -> (r: u64)
    requires
        off + 8 <= bytes@.len(),
    ensures
        u64_le_seq(r) == bytes@.subrange(off as int, off as int + 8),
{
    let total: usize = bytes.len();
    let mut x: u64 = bytes[off + 7] as u64;
    x = x * 256 + bytes[off + 6] as u64;
    x = x * 256 + bytes[off + 5] as u64;
    x = x * 256 + bytes[off + 4] as u64;
    x = x * 256 + bytes[off + 3] as u64;
    x = x * 256 + bytes[off + 2] as u64;
    x = x * 256 + bytes[off + 1] as u64;
    x = x * 256 + bytes[off] as u64;
    proof {
        lemma_le8_extract(
            bytes@[off as int],
            bytes@[off as int + 1],
            bytes@[off as int + 2],
            bytes@[off as int + 3],
            bytes@[off as int + 4],
            bytes@[off as int + 5],
            bytes@[off as int + 6],
            bytes@[off as int + 7],
            x,
        );
        assert(u64_le_seq(x) =~= bytes@.subrange(off as int, off as int + 8));
    }
    x
}

/// Reads the four bytes at `off` of a slice as a little-endian 32-bit
/// value: the bytes are exactly the value's little-endian spelling.
pub(crate) fn read_u32_le(bytes: &[u8], off: usize) -> (r: u32)
    requires
        off + 4 <= bytes@.len(),
    ensures
        u32_le_seq(r) == bytes@.subrange(off as int, off as int + 4),
{
    let total: usize = bytes.len();
    let mut x: u32 = bytes[off + 3] as u32;
    x = x * 256 + bytes[off + 2] as u32;
    x = x * 256 + bytes[off + 1] as u32;
    x = x * 256 + bytes[off] as u32;
    proof {
        lemma_le4_extract(
            bytes@[off as int],
            bytes@[off as int + 1],
            bytes@[off as int + 2],
            bytes@[off as int + 3],
            x,
        );
        assert(u32_le_seq(x) =~= bytes@.subrange(off as int, off as int + 4));
    }
    x
}

/// Reads the eight bytes at `off` as a little-endian 64-bit value.
pub(crate) fn read_le_limb(bytes: &[u8; 32], off: usize) -> (r: u64)
    requires
        off + 8 <= 32,
    ensures
        r == le_limb(bytes@, off as int),
{
    let total: usize = bytes.len();
    let mut x: u64 = bytes[off + 7] as u64;
    x = x * 256 + bytes[off + 6] as u64;
    x = x * 256 + bytes[off + 5] as u64;
    x = x * 256 + bytes[off + 4] as u64;
    x = x * 256 + bytes[off + 3] as u64;
    x = x * 256 + bytes[off + 2] as u64;
    x = x * 256 + bytes[off + 1] as u64;
    x = x * 256 + bytes[off] as u64;
    x
}

/// Reads the eight bytes at `off` as a big-endian 64-bit value.
pub(crate) fn read_be_limb(bytes: &[u8; 32], off: usize) -> (r: u64)
    requires
        off + 8 <= 32,
    ensures
        r == be_limb(bytes@, off as int),
{
    let mut x: u64 = bytes[off] as u64;
    x = x * 256 + bytes[off + 1] as u64;
    x = x * 256 + bytes[off + 2] as u64;
    x = x * 256 + bytes[off + 3] as u64;
    x = x * 256 + bytes[off + 4] as u64;
    x = x * 256 + bytes[off + 5] as u64;
    x = x * 256 + bytes[off + 6] as u64;
    x = x * 256 + bytes[off + 7] as u64;
    x
}

/// The eight little-endian bytes of a 64-bit value.
pub(crate) fn u64_to_le_bytes(x: u64) -> (r: [u8; 8])
    ensures
        r@ == u64_le_seq(x),
{
    let b0: u8 = (x % 256) as u8;
    let b1: u8 = (x / 0x100 % 256) as u8;
    let b2: u8 = (x / 0x10000 % 256) as u8;
    let b3: u8 = (x / 0x1000000 % 256) as u8;
    let b4: u8 = (x / 0x100000000 % 256) as u8;
    let b5: u8 = (x / 0x10000000000 % 256) as u8;
    let b6: u8 = (x / 0x1000000000000 % 256) as u8;
    let b7: u8 = (x / 0x100000000000000 % 256) as u8;
    let r: [u8; 8] = [b0, b1, b2, b3, b4, b5, b6, b7];
    proof {
        assert(r@ =~= u64_le_seq(x));
    }
    r
}

/// Appends all bytes of the given array to `out`.
pub(crate) fn push_bytes<const N: usize>(out: &mut Vec<u8>, a: &[u8; N]) -> (nothing: ())
    ensures
        final(out)@ == old(out)@ + a@,
{
    let mut i: usize = 0;
    while i < N
        invariant
            i <= N,
            out@ == old(out)@ + a@.take(i as int),
        decreases N - i,
    {
        out.push(a[i]);
        i += 1;
        proof {
            assert(out@ =~= old(out)@ + a@.take(i as int));
        }
    }
    proof {
        assert(a@.take(N as int) =~= a@);
    }
}

/// Appends the eight little-endian bytes of `x` to `out`.
pub(crate) fn push_u64_le(out: &mut Vec<u8>, x: u64) -> (nothing: ())
    ensures
        final(out)@ == old(out)@ + u64_le_seq(x),
{
    out.push((x % 256) as u8);
    out.push((x / 0x100 % 256) as u8);
    out.push((x / 0x10000 % 256) as u8);
    out.push((x / 0x1000000 % 256) as u8);
    out.push((x / 0x100000000 % 256) as u8);
    out.push((x / 0x10000000000 % 256) as u8);
    out.push((x / 0x1000000000000 % 256) as u8);
    out.push((x / 0x100000000000000 % 256) as u8);
    proof {
        assert(out@ =~= old(out)@ + u64_le_seq(x));
    }
}

/// Appends the four little-endian bytes of `x` to `out`.
pub(crate) fn push_u32_le(out: &mut Vec<u8>, x: u32) -> (nothing: ())
    ensures
        final(out)@ == old(out)@ + u32_le_seq(x),
{
    out.push((x % 256) as u8);
    out.push((x / 0x100 % 256) as u8);
    out.push((x / 0x10000 % 256) as u8);
    out.push((x / 0x1000000 % 256) as u8);
    proof {
        assert(out@ =~= old(out)@ + u32_le_seq(x));
    }
}

/// Copies the 32 bytes at `off` of a slice into an array.
pub(crate) fn read_bytes32(bytes: &[u8], off: usize) -> (r: [u8; 32])
    requires
        off + 32 <= bytes@.len(),
    ensures
        r@ == bytes@.subrange(off as int, off as int + 32),
{
    let total: usize = bytes.len();
    let r: [u8; 32] = [bytes[off], bytes[off + 1], bytes[off + 2], bytes[off + 3], bytes[off + 4], bytes[off + 5], bytes[off + 6], bytes[off + 7], bytes[off + 8], bytes[off + 9], bytes[off + 10], bytes[off + 11], bytes[off + 12], bytes[off + 13], bytes[off + 14], bytes[off + 15], bytes[off + 16], bytes[off + 17], bytes[off + 18], bytes[off + 19], bytes[off + 20], bytes[off + 21], bytes[off + 22], bytes[off + 23], bytes[off + 24], bytes[off + 25], bytes[off + 26], bytes[off + 27], bytes[off + 28], bytes[off + 29], bytes[off + 30], bytes[off + 31]];
    proof {
        assert(r@ =~= bytes@.subrange(off as int, off as int + 32));
    }
    r
}

/// Copies the 48 bytes at `off` of a slice into an array.
pub(crate) fn read_bytes48(bytes: &[u8], off: usize) -> (r: [u8; 48])
    requires
        off + 48 <= bytes@.len(),
    ensures
        r@ == bytes@.subrange(off as int, off as int + 48),
{
    let total: usize = bytes.len();
    let r: [u8; 48] = [bytes[off], bytes[off + 1], bytes[off + 2], bytes[off + 3], bytes[off + 4], bytes[off + 5], bytes[off + 6], bytes[off + 7], bytes[off + 8], bytes[off + 9], bytes[off + 10], bytes[off + 11], bytes[off + 12], bytes[off + 13], bytes[off + 14], bytes[off + 15], bytes[off + 16], bytes[off + 17], bytes[off + 18], bytes[off + 19], bytes[off + 20], bytes[off + 21], bytes[off + 22], bytes[off + 23], bytes[off + 24], bytes[off + 25], bytes[off + 26], bytes[off + 27], bytes[off + 28], bytes[off + 29], bytes[off + 30], bytes[off + 31], bytes[off + 32], bytes[off + 33], bytes[off + 34], bytes[off + 35], bytes[off + 36], bytes[off + 37], bytes[off + 38], bytes[off + 39], bytes[off + 40], bytes[off + 41], bytes[off + 42], bytes[off + 43], bytes[off + 44], bytes[off + 45], bytes[off + 46], bytes[off + 47]];
    proof {
        assert(r@ =~= bytes@.subrange(off as int, off as int + 48));
    }
    r
}

} // verus!
