//! A 256-bit unsigned integer with wraparound, checked and saturating
//! arithmetic, kept behind a narrow interface so that the backing
//! representation (four 64-bit limbs) stays an implementation detail.

use vstd::prelude::*;
use vstd::arithmetic::mul::{lemma_mul_inequality, lemma_mul_is_commutative};
use vstd::arithmetic::power2::{
    lemma2_to64, lemma2_to64_rest, lemma_pow2_adds, lemma_pow2_pos, lemma_pow2_strictly_increases,
    pow2,
};
use vstd::bits::lemma_u64_shr_is_div;
use vstd::arithmetic::div_mod::{
    lemma_add_mod_noop, lemma_basic_div, lemma_div_basics, lemma_div_denominator,
    lemma_div_multiples_vanish_fancy, lemma_fundamental_div_mod,
    lemma_fundamental_div_mod_converse, lemma_mod_multiples_vanish, lemma_mul_mod_noop_left,
    lemma_multiply_divide_lt, lemma_small_mod,
};
use crate::distance::{cyclic_distance, sub_mod, WrappingRing};
use crate::byte_order::{
    be_limb, be_nat, le_limb, le_nat, le_nat_from, lemma_be_split8, lemma_le_split8,
    lemma_u64_byte_sum, read_be_limb, read_le_limb,
};

verus! {

/// Two to the power of 64: the weight of one limb.
#[verifier::inline]
pub open spec fn p64() -> nat {
    0x10000000000000000
}

/// Two to the power of 128.
#[verifier::inline]
pub open spec fn p128() -> nat {
    0x100000000000000000000000000000000nat
}

/// Two to the power of 192.
#[verifier::inline]
pub open spec fn p192() -> nat {
    0x1000000000000000000000000000000000000000000000000nat
}

/// The size of the cyclic ring that [`U256`] arithmetic wraps around in:
/// two to the power of 256.
#[verifier::inline]
pub open spec fn u256_modulus() -> nat {
    0x10000000000000000000000000000000000000000000000000000000000000000nat
}

/// 256-bit unsigned integer.
#[derive(Debug, Copy, Clone, Hash, PartialEq, Eq, Structural)]
pub struct U256 {
    w0: u64,
    w1: u64,
    w2: u64,
    w3: u64,
}

impl U256 {
    /// The mathematical value of this number, with `w0` the least
    /// significant 64-bit limb.
    pub closed spec fn as_nat(self) -> nat {
        (self.w0 + self.w1 * p64() + self.w2 * p128() + self.w3 * p192()) as nat
    }

    /// Every value of this type lies inside the 256-bit ring.
    pub proof fn lemma_in_ring(self)
        ensures
            self.as_nat() < u256_modulus(),
    {
    }

    /// Two numbers with the same mathematical value are the same number.
    pub proof fn lemma_as_nat_injective(self, other: Self)
        requires
            self.as_nat() == other.as_nat(),
        ensures
            self == other,
    {
        let qa: int = self.w1 + self.w2 * p64() + self.w3 * p128();
        let qb: int = other.w1 + other.w2 * p64() + other.w3 * p128();
        lemma_regroup(self.w0 as int, self.w1 as int, self.w2 as int, self.w3 as int);
        lemma_regroup(other.w0 as int, other.w1 as int, other.w2 as int, other.w3 as int);
        lemma_fundamental_div_mod_converse(self.as_nat() as int, p64() as int, qa, self.w0 as int);
        lemma_fundamental_div_mod_converse(
            other.as_nat() as int,
            p64() as int,
            qb,
            other.w0 as int,
        );
        let ra: int = self.w2 + self.w3 * p64();
        let rb: int = other.w2 + other.w3 * p64();
        lemma_regroup(self.w1 as int, self.w2 as int, self.w3 as int, 0);
        lemma_regroup(other.w1 as int, other.w2 as int, other.w3 as int, 0);
        lemma_fundamental_div_mod_converse(qa, p64() as int, ra, self.w1 as int);
        lemma_fundamental_div_mod_converse(qb, p64() as int, rb, other.w1 as int);
        lemma_fundamental_div_mod_converse(ra, p64() as int, self.w3 as int, self.w2 as int);
        lemma_fundamental_div_mod_converse(rb, p64() as int, other.w3 as int, other.w2 as int);
    }

    /// Zero (additive identity) of this type.
    pub fn zero() -> (r: Self)
        ensures
            r.as_nat() == 0,
    {
        U256 { w0: 0, w1: 0, w2: 0, w3: 0 }
    }

    /// One (multiplicative identity) of this type.
    pub fn one() -> (r: Self)
        ensures
            r.as_nat() == 1,
    {
        U256 { w0: 1, w1: 0, w2: 0, w3: 0 }
    }

    /// Maximum value: one less than the size of the ring.
    pub fn max_value() -> (r: Self)
        ensures
            r.as_nat() == u256_modulus() - 1,
    {
        U256 { w0: u64::MAX, w1: u64::MAX, w2: u64::MAX, w3: u64::MAX }
    }

    /// The middle of the distance field, the analogue of `0b0111_1111`
    /// scaled to 256 bits: the maximum value divided by two.
    pub fn middle() -> (r: Self)
        ensures
            r.as_nat() == (u256_modulus() - 1) / 2,
    {
        U256 { w0: u64::MAX, w1: u64::MAX, w2: u64::MAX, w3: u64::MAX / 2 }
    }

    /// The number with the given 64-bit value.
    pub fn from_u64(n: u64) -> (r: Self)
        ensures
            r.as_nat() == n,
    {
        U256 { w0: n, w1: 0, w2: 0, w3: 0 }
    }

    /// The number with the given 128-bit value.
    pub fn from_u128(n: u128) -> (r: Self)
        ensures
            r.as_nat() == n,
    {
        let lo: u64 = (n % 0x10000000000000000u128) as u64;
        let hi: u64 = (n / 0x10000000000000000u128) as u64;
        proof {
            lemma_fundamental_div_mod(n as int, 0x10000000000000000);
        }
        U256 { w0: lo, w1: hi, w2: 0, w3: 0 }
    }

    /// The 64-bit value of this number, or an error when it does not fit.
    pub fn try_into_u64(self) -> (r: Result<u64, &'static str>)
        ensures
            self.as_nat() <= u64::MAX ==> r == Ok::<u64, &'static str>((self.as_nat() as u64)),
            self.as_nat() > u64::MAX ==> r.is_err(),
    {
        if self.w1 == 0 && self.w2 == 0 && self.w3 == 0 {
            Ok(self.w0)
        } else {
            Err("number does not fit into 64 bits")
        }
    }

    /// Create from big endian bytes.
    pub fn from_be_bytes(bytes: [u8; 32]) -> (r: Self)
        ensures
            r.as_nat() == be_nat(bytes@),
    {
        let w3: u64 = read_be_limb(&bytes, 0);
        let w2: u64 = read_be_limb(&bytes, 8);
        let w1: u64 = read_be_limb(&bytes, 16);
        let w0: u64 = read_be_limb(&bytes, 24);
        proof {
            lemma_be_unroll32(bytes@);
        }
        U256 { w0, w1, w2, w3 }
    }

    /// Convert to big endian bytes.
    #[verifier::rlimit(100)]
    pub fn to_be_bytes(self) -> (r: [u8; 32])
        ensures
            be_nat(r@) == self.as_nat(),
    {
        let b0: u8 = (self.w0 % 256) as u8;
        let b1: u8 = (self.w0 / 0x100 % 256) as u8;
        let b2: u8 = (self.w0 / 0x10000 % 256) as u8;
        let b3: u8 = (self.w0 / 0x1000000 % 256) as u8;
        let b4: u8 = (self.w0 / 0x100000000 % 256) as u8;
        let b5: u8 = (self.w0 / 0x10000000000 % 256) as u8;
        let b6: u8 = (self.w0 / 0x1000000000000 % 256) as u8;
        let b7: u8 = (self.w0 / 0x100000000000000 % 256) as u8;
        let b8: u8 = (self.w1 % 256) as u8;
        let b9: u8 = (self.w1 / 0x100 % 256) as u8;
        let b10: u8 = (self.w1 / 0x10000 % 256) as u8;
        let b11: u8 = (self.w1 / 0x1000000 % 256) as u8;
        let b12: u8 = (self.w1 / 0x100000000 % 256) as u8;
        let b13: u8 = (self.w1 / 0x10000000000 % 256) as u8;
        let b14: u8 = (self.w1 / 0x1000000000000 % 256) as u8;
        let b15: u8 = (self.w1 / 0x100000000000000 % 256) as u8;
        let b16: u8 = (self.w2 % 256) as u8;
        let b17: u8 = (self.w2 / 0x100 % 256) as u8;
        let b18: u8 = (self.w2 / 0x10000 % 256) as u8;
        let b19: u8 = (self.w2 / 0x1000000 % 256) as u8;
        let b20: u8 = (self.w2 / 0x100000000 % 256) as u8;
        let b21: u8 = (self.w2 / 0x10000000000 % 256) as u8;
        let b22: u8 = (self.w2 / 0x1000000000000 % 256) as u8;
        let b23: u8 = (self.w2 / 0x100000000000000 % 256) as u8;
        let b24: u8 = (self.w3 % 256) as u8;
        let b25: u8 = (self.w3 / 0x100 % 256) as u8;
        let b26: u8 = (self.w3 / 0x10000 % 256) as u8;
        let b27: u8 = (self.w3 / 0x1000000 % 256) as u8;
        let b28: u8 = (self.w3 / 0x100000000 % 256) as u8;
        let b29: u8 = (self.w3 / 0x10000000000 % 256) as u8;
        let b30: u8 = (self.w3 / 0x1000000000000 % 256) as u8;
        let b31: u8 = (self.w3 / 0x100000000000000 % 256) as u8;
        let r: [u8; 32] = [
            b31, b30, b29, b28, b27, b26, b25, b24, b23, b22, b21, b20, b19, b18, b17, b16, b15, b14, b13, b12, b11, b10, b9, b8, b7, b6, b5, b4, b3, b2, b1, b0,
        ];
        proof {
            assert(r@ =~= seq![b31, b30, b29, b28, b27, b26, b25, b24, b23, b22, b21, b20, b19, b18, b17, b16, b15, b14, b13, b12, b11, b10, b9, b8, b7, b6, b5, b4, b3, b2, b1, b0]);
            lemma_be_unroll32(r@);
            assert(be_limb(r@, 24) == self.w0) by {
                lemma_u64_byte_sum(self.w0);
            };
            assert(be_limb(r@, 16) == self.w1) by {
                lemma_u64_byte_sum(self.w1);
            };
            assert(be_limb(r@, 8) == self.w2) by {
                lemma_u64_byte_sum(self.w2);
            };
            assert(be_limb(r@, 0) == self.w3) by {
                lemma_u64_byte_sum(self.w3);
            };
        }
        r
    }

    /// Create from little endian bytes.
    pub fn from_le_bytes(bytes: [u8; 32]) -> (r: Self)
        ensures
            r.as_nat() == le_nat(bytes@),
    {
        let w0: u64 = read_le_limb(&bytes, 0);
        let w1: u64 = read_le_limb(&bytes, 8);
        let w2: u64 = read_le_limb(&bytes, 16);
        let w3: u64 = read_le_limb(&bytes, 24);
        proof {
            lemma_le_unroll32(bytes@);
        }
        U256 { w0, w1, w2, w3 }
    }

    /// Convert to little endian bytes.
    #[verifier::rlimit(50)]
    pub fn to_le_bytes(self) -> (r: [u8; 32])
        ensures
            le_nat(r@) == self.as_nat(),
    {
        let b0: u8 = (self.w0 % 256) as u8;
        let b1: u8 = (self.w0 / 0x100 % 256) as u8;
        let b2: u8 = (self.w0 / 0x10000 % 256) as u8;
        let b3: u8 = (self.w0 / 0x1000000 % 256) as u8;
        let b4: u8 = (self.w0 / 0x100000000 % 256) as u8;
        let b5: u8 = (self.w0 / 0x10000000000 % 256) as u8;
        let b6: u8 = (self.w0 / 0x1000000000000 % 256) as u8;
        let b7: u8 = (self.w0 / 0x100000000000000 % 256) as u8;
        let b8: u8 = (self.w1 % 256) as u8;
        let b9: u8 = (self.w1 / 0x100 % 256) as u8;
        let b10: u8 = (self.w1 / 0x10000 % 256) as u8;
        let b11: u8 = (self.w1 / 0x1000000 % 256) as u8;
        let b12: u8 = (self.w1 / 0x100000000 % 256) as u8;
        let b13: u8 = (self.w1 / 0x10000000000 % 256) as u8;
        let b14: u8 = (self.w1 / 0x1000000000000 % 256) as u8;
        let b15: u8 = (self.w1 / 0x100000000000000 % 256) as u8;
        let b16: u8 = (self.w2 % 256) as u8;
        let b17: u8 = (self.w2 / 0x100 % 256) as u8;
        let b18: u8 = (self.w2 / 0x10000 % 256) as u8;
        let b19: u8 = (self.w2 / 0x1000000 % 256) as u8;
        let b20: u8 = (self.w2 / 0x100000000 % 256) as u8;
        let b21: u8 = (self.w2 / 0x10000000000 % 256) as u8;
        let b22: u8 = (self.w2 / 0x1000000000000 % 256) as u8;
        let b23: u8 = (self.w2 / 0x100000000000000 % 256) as u8;
        let b24: u8 = (self.w3 % 256) as u8;
        let b25: u8 = (self.w3 / 0x100 % 256) as u8;
        let b26: u8 = (self.w3 / 0x10000 % 256) as u8;
        let b27: u8 = (self.w3 / 0x1000000 % 256) as u8;
        let b28: u8 = (self.w3 / 0x100000000 % 256) as u8;
        let b29: u8 = (self.w3 / 0x10000000000 % 256) as u8;
        let b30: u8 = (self.w3 / 0x1000000000000 % 256) as u8;
        let b31: u8 = (self.w3 / 0x100000000000000 % 256) as u8;
        let r: [u8; 32] = [
            b0, b1, b2, b3, b4, b5, b6, b7, b8, b9, b10, b11, b12, b13, b14, b15, b16, b17, b18, b19, b20, b21, b22, b23, b24, b25, b26, b27, b28, b29, b30, b31,
        ];
        proof {
            assert(r@ =~= seq![b0, b1, b2, b3, b4, b5, b6, b7, b8, b9, b10, b11, b12, b13, b14, b15, b16, b17, b18, b19, b20, b21, b22, b23, b24, b25, b26, b27, b28, b29, b30, b31]);
            lemma_le_unroll32(r@);
            lemma_u64_byte_sum(self.w0);
            lemma_u64_byte_sum(self.w1);
            lemma_u64_byte_sum(self.w2);
            lemma_u64_byte_sum(self.w3);
        }
        r
    }

    /// The remainder of this number divided by a 64-bit divisor.
    pub fn rem_u64(&self, d: u64) -> (r: u64)
        requires
            d > 0,
        ensures
            r == self.as_nat() % (d as nat),
            r < d,
    {
        let ghost m: int = d as int;
        let r3: u64 = (self.w3 as u128 % d as u128) as u64;
        let x2: u128 = r3 as u128 * 0x10000000000000000u128 + self.w2 as u128;
        let r2: u64 = (x2 % d as u128) as u64;
        let x1: u128 = r2 as u128 * 0x10000000000000000u128 + self.w1 as u128;
        let r1: u64 = (x1 % d as u128) as u64;
        let x0: u128 = r1 as u128 * 0x10000000000000000u128 + self.w0 as u128;
        let r0: u64 = (x0 % d as u128) as u64;
        proof {
            lemma_flat_to_horner(self.w0 as nat, self.w1 as nat, self.w2 as nat, self.w3 as nat);
            lemma_step_mod(self.w3 as int, self.w2 as int, m);
            assert(r2 == ((self.w3 * p64() + self.w2) % m));
            lemma_step_mod((self.w3 * p64() + self.w2) as int, self.w1 as int, m);
            assert(r1 == (((self.w3 * p64() + self.w2) * p64() + self.w1) % m));
            lemma_step_mod(
                ((self.w3 * p64() + self.w2) * p64() + self.w1) as int,
                self.w0 as int,
                m,
            );
        }
        r0
    }

    /// Multiplication by a single 64-bit factor, together with the part
    /// of the product that falls out of the ring.
    fn mul_u64(&self, m: u64) -> (r: (Self, u64))
        ensures
            r.0.as_nat() + r.1 * u256_modulus() == self.as_nat() * m,
    {
        proof {
            lemma_u64_mul_bound(self.w0 as int, m as int);
        }
        let t0: u128 = self.w0 as u128 * m as u128;
        let r0: u64 = (t0 % 0x10000000000000000u128) as u64;
        proof {
            lemma_fundamental_div_mod(t0 as int, 0x10000000000000000);
        }
        let c0: u64 = (t0 / 0x10000000000000000u128) as u64;
        proof {
            lemma_u64_mul_bound(self.w1 as int, m as int);
            assert(c0 as u128 <= 0xfffffffffffffffeu128);
        }
        let t1: u128 = self.w1 as u128 * m as u128 + c0 as u128;
        let r1: u64 = (t1 % 0x10000000000000000u128) as u64;
        proof {
            lemma_fundamental_div_mod(t1 as int, 0x10000000000000000);
        }
        let c1: u64 = (t1 / 0x10000000000000000u128) as u64;
        proof {
            lemma_u64_mul_bound(self.w2 as int, m as int);
            assert(c1 as u128 <= 0xfffffffffffffffeu128);
        }
        let t2: u128 = self.w2 as u128 * m as u128 + c1 as u128;
        let r2: u64 = (t2 % 0x10000000000000000u128) as u64;
        proof {
            lemma_fundamental_div_mod(t2 as int, 0x10000000000000000);
        }
        let c2: u64 = (t2 / 0x10000000000000000u128) as u64;
        proof {
            lemma_u64_mul_bound(self.w3 as int, m as int);
            assert(c2 as u128 <= 0xfffffffffffffffeu128);
        }
        let t3: u128 = self.w3 as u128 * m as u128 + c2 as u128;
        let r3: u64 = (t3 % 0x10000000000000000u128) as u64;
        proof {
            lemma_fundamental_div_mod(t3 as int, 0x10000000000000000);
        }
        let c3: u64 = (t3 / 0x10000000000000000u128) as u64;
        proof {
            lemma_mul_u64_carries(
                self.w0 as int,
                self.w1 as int,
                self.w2 as int,
                self.w3 as int,
                m as int,
                r0 as int,
                r1 as int,
                r2 as int,
                r3 as int,
                c0 as int,
                c1 as int,
                c2 as int,
                c3 as int,
            );
        }
        (U256 { w0: r0, w1: r1, w2: r2, w3: r3 }, c3)
    }

    /// Addition of the two numbers together with the carry out of the ring.
    fn overflowing_add(&self, v: &Self) -> (r: (Self, bool))
        ensures
            r.0.as_nat() + (if r.1 {
                u256_modulus()
            } else {
                0
            }) == self.as_nat() + v.as_nat(),
    {
        let s0: u128 = self.w0 as u128 + v.w0 as u128;
        let r0: u64 = (s0 % 0x10000000000000000u128) as u64;
        let c0: u64 = (s0 / 0x10000000000000000u128) as u64;
        let s1: u128 = self.w1 as u128 + v.w1 as u128 + c0 as u128;
        let r1: u64 = (s1 % 0x10000000000000000u128) as u64;
        let c1: u64 = (s1 / 0x10000000000000000u128) as u64;
        let s2: u128 = self.w2 as u128 + v.w2 as u128 + c1 as u128;
        let r2: u64 = (s2 % 0x10000000000000000u128) as u64;
        let c2: u64 = (s2 / 0x10000000000000000u128) as u64;
        let s3: u128 = self.w3 as u128 + v.w3 as u128 + c2 as u128;
        let r3: u64 = (s3 % 0x10000000000000000u128) as u64;
        let c3: u64 = (s3 / 0x10000000000000000u128) as u64;
        proof {
            lemma_fundamental_div_mod(s0 as int, 0x10000000000000000);
            lemma_fundamental_div_mod(s1 as int, 0x10000000000000000);
            lemma_fundamental_div_mod(s2 as int, 0x10000000000000000);
            lemma_fundamental_div_mod(s3 as int, 0x10000000000000000);
        }
        (U256 { w0: r0, w1: r1, w2: r2, w3: r3 }, c3 == 1)
    }

    /// Subtraction of the two numbers together with the borrow out of the
    /// ring.
    fn overflowing_sub(&self, v: &Self) -> (r: (Self, bool))
        ensures
            r.0.as_nat() == self.as_nat() - v.as_nat() + (if r.1 {
                u256_modulus()
            } else {
                0
            }),
            r.1 <==> self.as_nat() < v.as_nat(),
    {
        let t0: u128 = 0x10000000000000000u128 + self.w0 as u128 - v.w0 as u128;
        let r0: u64 = (t0 % 0x10000000000000000u128) as u64;
        let b0: u64 = 1 - (t0 / 0x10000000000000000u128) as u64;
        let t1: u128 = 0x10000000000000000u128 + self.w1 as u128 - v.w1 as u128 - b0 as u128;
        let r1: u64 = (t1 % 0x10000000000000000u128) as u64;
        let b1: u64 = 1 - (t1 / 0x10000000000000000u128) as u64;
        let t2: u128 = 0x10000000000000000u128 + self.w2 as u128 - v.w2 as u128 - b1 as u128;
        let r2: u64 = (t2 % 0x10000000000000000u128) as u64;
        let b2: u64 = 1 - (t2 / 0x10000000000000000u128) as u64;
        let t3: u128 = 0x10000000000000000u128 + self.w3 as u128 - v.w3 as u128 - b2 as u128;
        let r3: u64 = (t3 % 0x10000000000000000u128) as u64;
        let b3: u64 = 1 - (t3 / 0x10000000000000000u128) as u64;
        proof {
            lemma_fundamental_div_mod(t0 as int, 0x10000000000000000);
            lemma_fundamental_div_mod(t1 as int, 0x10000000000000000);
            lemma_fundamental_div_mod(t2 as int, 0x10000000000000000);
            lemma_fundamental_div_mod(t3 as int, 0x10000000000000000);
        }
        (U256 { w0: r0, w1: r1, w2: r2, w3: r3 }, b3 == 1)
    }

    /// Addition that wraps around at the boundary of the ring.
    pub fn wrapping_add(&self, other: &Self) -> (r: Self)
        ensures
            r.as_nat() == (self.as_nat() + other.as_nat()) % u256_modulus(),
    {
        let (sum, carry) = self.overflowing_add(other);
        proof {
            if carry {
                lemma_mod_multiples_vanish(1, sum.as_nat() as int, u256_modulus() as int);
                lemma_small_mod(sum.as_nat(), u256_modulus());
            } else {
                lemma_small_mod((self.as_nat() + other.as_nat()) as nat, u256_modulus());
            }
        }
        sum
    }

    /// Subtraction that wraps around at the boundary of the ring.
    pub fn wrapping_sub(&self, other: &Self) -> (r: Self)
        ensures
            r.as_nat() == (self.as_nat() - other.as_nat()) % (u256_modulus() as int),
    {
        let (diff, borrow) = self.overflowing_sub(other);
        proof {
            let d = self.as_nat() - other.as_nat();
            if borrow {
                lemma_mod_multiples_vanish(-1, diff.as_nat() as int, u256_modulus() as int);
                lemma_small_mod(diff.as_nat(), u256_modulus());
            } else {
                lemma_small_mod(d as nat, u256_modulus());
            }
        }
        diff
    }

    /// Adds two numbers, checking for overflow. If overflow happens, `None`
    /// is returned.
    pub fn checked_add(&self, v: &Self) -> (r: Option<Self>)
        ensures
            self.as_nat() + v.as_nat() < u256_modulus() ==> (r matches Some(s) && s.as_nat()
                == self.as_nat() + v.as_nat()),
            self.as_nat() + v.as_nat() >= u256_modulus() ==> r is None,
    {
        let (sum, carry) = self.overflowing_add(v);
        if carry {
            None
        } else {
            Some(sum)
        }
    }

    /// Subtracts two numbers, checking for underflow. If underflow happens,
    /// `None` is returned.
    pub fn checked_sub(&self, v: &Self) -> (r: Option<Self>)
        ensures
            self.as_nat() >= v.as_nat() ==> (r matches Some(d) && d.as_nat() == self.as_nat()
                - v.as_nat()),
            self.as_nat() < v.as_nat() ==> r is None,
    {
        let (diff, borrow) = self.overflowing_sub(v);
        if borrow {
            None
        } else {
            Some(diff)
        }
    }

    /// Multiplies two numbers, checking for overflow. If overflow
    /// happens, `None` is returned.
    pub fn checked_mul(&self, v: &Self) -> (r: Option<Self>)
        ensures
            self.as_nat() * v.as_nat() < u256_modulus() ==> (r matches Some(s) && s.as_nat()
                == self.as_nat() * v.as_nat()),
            self.as_nat() * v.as_nat() >= u256_modulus() ==> r is None,
    {
        proof {
            lemma_mul_is_commutative(self.as_nat() as int, v.as_nat() as int);
        }
        let (a, b): (&Self, &Self) = if v.w2 == 0 && v.w3 == 0 {
            (self, v)
        } else if self.w2 == 0 && self.w3 == 0 {
            (v, self)
        } else {
            proof {
                lemma_both_high(self.as_nat(), v.as_nat());
            }
            return None;
        };
        let (p_low, c_low) = a.mul_u64(b.w0);
        let (p_high, c_high) = a.mul_u64(b.w1);
        proof {
            lemma_mul_assemble(
                a.as_nat(),
                b.as_nat(),
                b.w0 as nat,
                b.w1 as nat,
                p_low.as_nat(),
                c_low as nat,
                p_high.as_nat(),
                c_high as nat,
            );
        }
        if c_low != 0 || c_high != 0 {
            proof {
                lemma_mul_inequality(
                    1,
                    c_low + c_high * (p64() as int),
                    u256_modulus() as int,
                );
            }
            return None;
        }
        if p_high.w3 != 0 {
            proof {
                lemma_mul_inequality(p192() as int, p_high.as_nat() as int, p64() as int);
                assert(p192() * p64() == u256_modulus()) by (nonlinear_arith);
            }
            return None;
        }
        let shifted = U256 { w0: 0, w1: p_high.w0, w2: p_high.w1, w3: p_high.w2 };
        proof {
            lemma_shift_limb(p_high.w0 as int, p_high.w1 as int, p_high.w2 as int);
        }
        let (sum, carry) = p_low.overflowing_add(&shifted);
        if carry {
            None
        } else {
            Some(sum)
        }
    }

    /// Saturating multiplication: the product, clamped to the maximum
    /// value of the type on overflow.
    pub fn saturating_mul(&self, v: &Self) -> (r: Self)
        ensures
            self.as_nat() * v.as_nat() < u256_modulus() ==> r.as_nat() == self.as_nat()
                * v.as_nat(),
            self.as_nat() * v.as_nat() >= u256_modulus() ==> r.as_nat() == u256_modulus() - 1,
    {
        match self.checked_mul(v) {
            Some(product) => product,
            None => Self::max_value(),
        }
    }

    /// Divides two numbers, checking for division by zero.  On division
    /// by zero, `None` is returned.
    pub fn checked_div(&self, v: &Self) -> (r: Option<Self>)
        ensures
            v.as_nat() == 0 ==> r is None,
            v.as_nat() > 0 ==> (r matches Some(q) && q.as_nat() == self.as_nat() / v.as_nat()),
    {
        if v.w0 == 0 && v.w1 == 0 && v.w2 == 0 && v.w3 == 0 {
            return None;
        }
        let ghost x: nat = self.as_nat();
        let ghost d: nat = v.as_nat();
        let mut q = U256::zero();
        let mut rem = U256::zero();
        let mut i: usize = 0;
        proof {
            self.lemma_in_ring();
            v.lemma_in_ring();
            lemma_pow2_limbs();
            lemma2_to64();
            lemma_basic_div(x as int, pow2(256) as int);
        }
        while i < 256
            invariant
                i <= 256,
                0 < d,
                x == self.as_nat(),
                d == v.as_nat(),
                rem.as_nat() < d,
                q.as_nat() < pow2(i as nat),
                q.as_nat() * d + rem.as_nat() == x / pow2((256 - i) as nat),
            decreases 256 - i,
        {
            let step = self.div_step(v, q, rem, i);
            q = step.0;
            rem = step.1;
            i += 1;
        }
        proof {
            lemma2_to64();
            lemma_div_basics(x as int);
            lemma_fundamental_div_mod_converse(
                x as int,
                d as int,
                q.as_nat() as int,
                rem.as_nat() as int,
            );
        }
        Some(q)
    }

    /// One step of restoring long division: shift the next bit of the
    /// dividend into the remainder and put the matching bit into the
    /// quotient.
    #[verifier::rlimit(100)]
    fn div_step(&self, v: &Self, q: Self, rem: Self, i: usize) -> (r: (Self, Self))
        requires
            i < 256,
            0 < v.as_nat(),
            rem.as_nat() < v.as_nat(),
            q.as_nat() < pow2(i as nat),
            q.as_nat() * v.as_nat() + rem.as_nat() == self.as_nat() / pow2((256 - i) as nat),
        ensures
            r.1.as_nat() < v.as_nat(),
            r.0.as_nat() < pow2((i + 1) as nat),
            r.0.as_nat() * v.as_nat() + r.1.as_nat() == self.as_nat() / pow2((255 - i) as nat),
    {
        let ghost x: nat = self.as_nat();
        let ghost d: nat = v.as_nat();
        let bit_index: usize = 255 - i;
        let j: usize = bit_index / 64;
        let sh: u64 = (bit_index % 64) as u64;
        let w: u64 = if j == 0 {
            self.w0
        } else if j == 1 {
            self.w1
        } else if j == 2 {
            self.w2
        } else {
            self.w3
        };
        let bit: u64 = (w >> sh) & 1;
        let ghost p_old: nat = x / pow2((256 - i) as nat);
        let ghost p_new: nat = x / pow2((255 - i) as nat);
        proof {
            self.lemma_in_ring();
            v.lemma_in_ring();
            lemma_fundamental_div_mod(bit_index as int, 64);
            lemma_bit_extract(*self, j as nat, sh as nat);
            lemma_prefix_step(x, bit_index as nat);
            lemma_prefix_bound(x, (i + 1) as nat);
            lemma_pow2_double(i as nat);
            lemma_pow2_le_modulus((i + 1) as nat);
            assert(p_new == 2 * p_old + bit);
            assert(p_new < pow2((i + 1) as nat));
        }
        let (dbl, c1) = rem.overflowing_add(&rem);
        let bit_value = U256::from_u64(bit);
        let (shl, c2) = dbl.overflowing_add(&bit_value);
        let ghost t2: nat = (2 * rem.as_nat() + bit) as nat;
        proof {
            lemma_double_carry(rem.as_nat(), bit as nat, d, dbl.as_nat(), c1, shl.as_nat(), c2);
        }
        let (qd2, qc1) = q.overflowing_add(&q);
        if c1 || c2 || v.le(&shl) {
            let new_rem = shl.wrapping_sub(v);
            let (q2, qc2) = qd2.overflowing_add(&U256::one());
            proof {
                lemma_rem_update(t2, d, shl.as_nat(), c1 || c2, new_rem.as_nat());
                lemma_div_step(
                    q.as_nat(),
                    rem.as_nat(),
                    d,
                    p_old,
                    bit as nat,
                    1,
                    q2.as_nat(),
                    new_rem.as_nat(),
                    p_new,
                );
            }
            (q2, new_rem)
        } else {
            proof {
                lemma_div_step(
                    q.as_nat(),
                    rem.as_nat(),
                    d,
                    p_old,
                    bit as nat,
                    0,
                    qd2.as_nat(),
                    shl.as_nat(),
                    p_new,
                );
            }
            (qd2, shl)
        }
    }

    /// Saturating addition: the sum, clamped to the maximum value of the
    /// type on overflow.
    pub fn saturating_add(&self, v: &Self) -> (r: Self)
        ensures
            self.as_nat() + v.as_nat() < u256_modulus() ==> r.as_nat() == self.as_nat()
                + v.as_nat(),
            self.as_nat() + v.as_nat() >= u256_modulus() ==> r.as_nat() == u256_modulus() - 1,
    {
        let (sum, carry) = self.overflowing_add(v);
        if carry {
            Self::max_value()
        } else {
            sum
        }
    }

    /// Saturating subtraction: the difference, clamped to zero on
    /// underflow.
    pub fn saturating_sub(&self, v: &Self) -> (r: Self)
        ensures
            self.as_nat() >= v.as_nat() ==> r.as_nat() == self.as_nat() - v.as_nat(),
            self.as_nat() < v.as_nat() ==> r.as_nat() == 0,
    {
        let (diff, borrow) = self.overflowing_sub(v);
        if borrow {
            Self::zero()
        } else {
            diff
        }
    }

    /// Whether this number is at most the other one.
    pub fn le(&self, other: &Self) -> (r: bool)
        ensures
            r == (self.as_nat() <= other.as_nat()),
    {
        let (_, borrow) = other.overflowing_sub(self);
        !borrow
    }
}

impl WrappingRing for U256 {
    /// The ring that the wraparound arithmetic of this type runs on.
    open spec fn ring_size() -> nat {
        u256_modulus()
    }

    /// The mathematical value of this number.
    open spec fn to_nat(&self) -> nat {
        self.as_nat()
    }

    proof fn lemma_on_ring(&self) {
    }

    fn wrapping_sub(&self, other: &Self) -> (r: Self) {
        let r = U256::wrapping_sub(self, other);
        proof {
            lemma_small_mod(self.as_nat(), u256_modulus());
            lemma_small_mod(other.as_nat(), u256_modulus());
        }
        r
    }

    fn le(&self, other: &Self) -> (r: bool) {
        U256::le(self, other)
    }
}

/// Big-endian byte round-trip: writing a number out and reading the bytes
/// back yields the same number.  The first premise is the contract of
/// [`U256::to_be_bytes`], the second that of [`U256::from_be_bytes`].
pub proof fn lemma_be_bytes_round_trip(x: U256, bytes: [u8; 32], y: U256)
    requires
        be_nat(bytes@) == x.as_nat(),
        y.as_nat() == be_nat(bytes@),
    ensures
        y == x,
{
    y.lemma_as_nat_injective(x);
}

/// Little-endian byte round-trip: writing a number out and reading the
/// bytes back yields the same number.  The first premise is the contract
/// of [`U256::to_le_bytes`], the second that of [`U256::from_le_bytes`].
pub proof fn lemma_le_bytes_round_trip(x: U256, bytes: [u8; 32], y: U256)
    requires
        le_nat(bytes@) == x.as_nat(),
        y.as_nat() == le_nat(bytes@),
    ensures
        y == x,
{
    y.lemma_as_nat_injective(x);
}

/// The bidirectional distance between two 256-bit numbers that are not
/// exactly opposite on the ring never exceeds the middle of the distance
/// field.
pub proof fn lemma_distance_at_most_middle(a: U256, b: U256)
    requires
        sub_mod(a.as_nat(), b.as_nat(), u256_modulus()) != u256_modulus() / 2,
    ensures
        cyclic_distance(a.as_nat(), b.as_nat(), u256_modulus()) <= (u256_modulus() - 1) / 2,
{
    crate::distance::lemma_distance_below_half(a.as_nat(), b.as_nat(), u256_modulus());
}

/// The limb of a number with the given index, the least significant
/// first.
spec fn u256_limb(x: U256, j: nat) -> u64 {
    if j == 0 {
        x.w0
    } else if j == 1 {
        x.w1
    } else if j == 2 {
        x.w2
    } else {
        x.w3
    }
}

/// The powers of two at the limb boundaries.
proof fn lemma_pow2_limbs()
    ensures
        pow2(64) == p64(),
        pow2(128) == p128(),
        pow2(192) == p192(),
        pow2(256) == u256_modulus(),
{
    lemma2_to64_rest();
    lemma_pow2_adds(64, 64);
    lemma_pow2_adds(128, 64);
    lemma_pow2_adds(192, 64);
    assert(0x10000000000000000nat * 0x10000000000000000nat
        == 0x100000000000000000000000000000000nat) by (nonlinear_arith);
    assert(0x100000000000000000000000000000000nat * 0x10000000000000000nat
        == 0x1000000000000000000000000000000000000000000000000nat) by (nonlinear_arith);
    assert(0x1000000000000000000000000000000000000000000000000nat * 0x10000000000000000nat
        == 0x10000000000000000000000000000000000000000000000000000000000000000nat) by (
    nonlinear_arith);
}

/// Dividing off the low limb: the part above the limb boundary is
/// untouched, and the bit parity of the quotient comes from the low limb
/// alone.
proof fn lemma_split_div(a: nat, h: nat, s: nat)
    requires
        s < 64,
        a < p64(),
    ensures
        (a + h * p64()) / pow2(s) == a / pow2(s) + h * pow2((64 - s) as nat),
        ((a + h * p64()) / pow2(s)) % 2 == (a / pow2(s)) % 2,
{
    lemma_pow2_limbs();
    lemma_pow2_adds(s, (64 - s) as nat);
    lemma_pow2_pos(s);
    lemma_pow2_pos((64 - s) as nat);
    lemma_pow2_pos((63 - s) as nat);
    let ps: nat = pow2(s);
    let pr: nat = pow2((64 - s) as nat);
    lemma_fundamental_div_mod(a as int, ps as int);
    let low: int = a as int % ps as int;
    let quot: int = a as int / ps as int;
    assert(a + h * p64() == ps * (quot + h * pr) + low) by (nonlinear_arith)
        requires
            a == ps * quot + low,
            p64() == ps * pr,
    ;
    lemma_div_multiples_vanish_fancy((quot + h * pr) as int, low, ps as int);
    lemma_pow2_adds(1, (63 - s) as nat);
    lemma2_to64();
    assert(h * pr == 2 * (h * pow2((63 - s) as nat))) by (nonlinear_arith)
        requires
            pr == 2 * pow2((63 - s) as nat),
    ;
    lemma_mod_multiples_vanish((h * pow2((63 - s) as nat)) as int, quot, 2);
}

/// The bit of a 256-bit number at position `64 * j + s`, taken from limb
/// `j` by shifting and masking, is the parity of the number shifted down
/// that far.
proof fn lemma_bit_extract(x: U256, j: nat, s: nat)
    requires
        j < 4,
        s < 64,
    ensures
        ((u256_limb(x, j) >> (s as u64)) & 1) == (x.as_nat() / pow2((64 * j + s) as nat)) % 2,
{
    lemma_pow2_limbs();
    lemma2_to64();
    lemma_pow2_adds(64, 64);
    lemma_pow2_adds(128, 64);
    lemma_div_basics(x.as_nat() as int);
    let q1: int = x.w1 + x.w2 * p64() + x.w3 * p128();
    let q2: int = x.w2 + x.w3 * p64();
    let q3: int = x.w3 as int;
    lemma_regroup(x.w0 as int, x.w1 as int, x.w2 as int, x.w3 as int);
    lemma_regroup(x.w1 as int, x.w2 as int, x.w3 as int, 0);
    lemma_regroup(x.w2 as int, x.w3 as int, 0, 0);
    lemma_fundamental_div_mod_converse(x.as_nat() as int, p64() as int, q1, x.w0 as int);
    lemma_fundamental_div_mod_converse(q1, p64() as int, q2, x.w1 as int);
    lemma_fundamental_div_mod_converse(q2, p64() as int, q3, x.w2 as int);
    lemma_pow2_pos((64 * j) as nat);
    lemma_pow2_pos(s);
    let w: u64 = u256_limb(x, j);
    let h: nat = if j == 0 {
        q1 as nat
    } else if j == 1 {
        q2 as nat
    } else if j == 2 {
        q3 as nat
    } else {
        0
    };
    if j == 1 {
        lemma_div_denominator(x.as_nat() as int, p64() as int, 1);
    } else if j == 2 {
        lemma_div_denominator(x.as_nat() as int, p64() as int, p64() as int);
    } else if j == 3 {
        lemma_div_denominator(x.as_nat() as int, p128() as int, p64() as int);
    }
    assert(x.as_nat() / pow2((64 * j) as nat) == w + h * p64());
    lemma_pow2_adds((64 * j) as nat, s);
    lemma_div_denominator(x.as_nat() as int, pow2((64 * j) as nat) as int, pow2(s) as int);
    lemma_split_div(w as nat, h, s);
    lemma_u64_shr_is_div(w, s as u64);
    let shifted: u64 = w >> (s as u64);
    assert((shifted & 1) == shifted % 2) by (bit_vector);
}

/// Shifting one bit further into the prefix doubles it and brings in the
/// parity bit.
proof fn lemma_prefix_step(x: nat, k: nat)
    ensures
        x / pow2(k) == 2 * (x / pow2((k + 1) as nat)) + (x / pow2(k)) % 2,
{
    lemma_pow2_adds(k, 1);
    lemma2_to64();
    lemma_pow2_pos(k);
    lemma_div_denominator(x as int, pow2(k) as int, 2);
    lemma_fundamental_div_mod((x / pow2(k)) as int, 2);
}

/// The first `i` bits of a 256-bit value make a number below two to the
/// power of `i`.
proof fn lemma_prefix_bound(x: nat, i: nat)
    requires
        x < u256_modulus(),
        i <= 256,
    ensures
        x / pow2((256 - i) as nat) < pow2(i),
{
    lemma_pow2_limbs();
    lemma_pow2_adds((256 - i) as nat, i);
    lemma_pow2_pos((256 - i) as nat);
    lemma_multiply_divide_lt(x as int, pow2((256 - i) as nat) as int, pow2(i) as int);
}

/// One more power of two doubles the value.
proof fn lemma_pow2_double(e: nat)
    ensures
        pow2((e + 1) as nat) == 2 * pow2(e),
{
    lemma_pow2_adds(1, e);
    lemma2_to64();
}

/// Every power of two up to the ring size stays within it.
proof fn lemma_pow2_le_modulus(e: nat)
    requires
        e <= 256,
    ensures
        pow2(e) <= u256_modulus(),
{
    lemma_pow2_limbs();
    if e < 256 {
        lemma_pow2_strictly_increases(e, 256);
    }
}

/// Doubling the remainder and bringing in one bit: how the two carry
/// flags of the 256-bit additions relate to the true value.
proof fn lemma_double_carry(
    remv: nat,
    bit: nat,
    d: nat,
    dblv: nat,
    c1: bool,
    shlv: nat,
    c2: bool,
)
    requires
        remv < d,
        d < u256_modulus(),
        bit <= 1,
        dblv + (if c1 {
            u256_modulus()
        } else {
            0
        }) == remv + remv,
        shlv + (if c2 {
            u256_modulus()
        } else {
            0
        }) == dblv + bit,
    ensures
        shlv + (if c1 || c2 {
            u256_modulus()
        } else {
            0
        }) == 2 * remv + bit,
        2 * remv + bit < 2 * d,
        !(c1 && c2),
{
}

/// After the conditional subtraction, the remainder is the true doubled
/// value less the divisor, and back inside its range.
proof fn lemma_rem_update(t2: nat, d: nat, shlv: nat, carried: bool, remv: nat)
    requires
        0 < d,
        d < u256_modulus(),
        t2 == shlv + (if carried {
            u256_modulus()
        } else {
            0
        }),
        t2 >= d,
        t2 < 2 * d,
        remv == (shlv - d) % (u256_modulus() as int),
    ensures
        remv == t2 - d,
        remv < d,
{
    if carried {
        lemma_mod_multiples_vanish(1, shlv - d, u256_modulus() as int);
    }
    lemma_small_mod((t2 - d) as nat, u256_modulus());
}

/// One division step keeps the loop relation: doubling the quotient,
/// bringing in the next bit, and reducing the remainder.
proof fn lemma_div_step(
    q_old: nat,
    rem_old: nat,
    d: nat,
    p_old: nat,
    bit: nat,
    qbit: nat,
    q_new: nat,
    rem_new: nat,
    p_new: nat,
)
    requires
        q_old * d + rem_old == p_old,
        p_new == 2 * p_old + bit,
        qbit <= 1,
        q_new == 2 * q_old + qbit,
        rem_new + qbit * d == 2 * rem_old + bit,
    ensures
        q_new * d + rem_new == p_new,
{
    lemma_step_product(q_old, qbit, d);
}

/// Doubling a quotient and adding a bit scales the product accordingly.
proof fn lemma_step_product(a: nat, b: nat, c: nat)
    ensures
        (2 * a + b) * c == 2 * (a * c) + b * c,
{
    assert((2 * a + b) * c == 2 * (a * c) + b * c) by (nonlinear_arith);
}

/// Two factors that both reach the square of the limb weight have a
/// product outside the ring.
proof fn lemma_both_high(a: nat, b: nat)
    requires
        a >= p128(),
        b >= p128(),
    ensures
        a * b >= u256_modulus(),
{
    assert(a * b >= 0x10000000000000000000000000000000000000000000000000000000000000000nat)
        by (nonlinear_arith)
        requires
            a >= 0x100000000000000000000000000000000nat,
            b >= 0x100000000000000000000000000000000nat,
    ;
}

/// A product taken limb by limb over a two-limb factor assembles into
/// the full product.
proof fn lemma_mul_assemble(a: nat, b: nat, b0: nat, b1: nat, p0: nat, c0: nat, p1: nat, c1: nat)
    requires
        b == b0 + b1 * p64(),
        p0 + c0 * u256_modulus() == a * b0,
        p1 + c1 * u256_modulus() == a * b1,
    ensures
        a * b == p0 + p1 * p64() + (c0 + c1 * p64()) * u256_modulus(),
{
    assert(a * b == p0 + p1 * 0x10000000000000000nat + (c0 + c1 * 0x10000000000000000nat)
        * 0x10000000000000000000000000000000000000000000000000000000000000000nat) by (
    nonlinear_arith)
        requires
            b == b0 + b1 * 0x10000000000000000nat,
            p0 + c0 * 0x10000000000000000000000000000000000000000000000000000000000000000nat == a
                * b0,
            p1 + c1 * 0x10000000000000000000000000000000000000000000000000000000000000000nat == a
                * b1,
    ;
}

/// Shifting a three-limb value up by one limb multiplies it by the limb
/// weight.
proof fn lemma_shift_limb(x0: int, x1: int, x2: int)
    ensures
        x0 * p64() + x1 * p128() + x2 * p192() == (x0 + x1 * p64() + x2 * p128()) * p64(),
{
    assert(x0 * 0x10000000000000000 + x1 * 0x100000000000000000000000000000000nat + x2
        * 0x1000000000000000000000000000000000000000000000000nat == (x0 + x1
        * 0x10000000000000000 + x2 * 0x100000000000000000000000000000000nat)
        * 0x10000000000000000) by (nonlinear_arith);
}

/// The product of two 64-bit values is below the square of the limb
/// weight.
proof fn lemma_u64_mul_bound(a: int, b: int)
    requires
        0 <= a < 0x10000000000000000,
        0 <= b < 0x10000000000000000,
    ensures
        0 <= a * b <= 0xfffffffffffffffe0000000000000001,
{
    assert(0 <= a * b <= 0xfffffffffffffffe0000000000000001) by (nonlinear_arith)
        requires
            0 <= a < 0x10000000000000000,
            0 <= b < 0x10000000000000000,
    ;
}

/// Carry bookkeeping of limb-by-limb multiplication by one 64-bit
/// factor.
proof fn lemma_mul_u64_carries(
    w0: int,
    w1: int,
    w2: int,
    w3: int,
    m: int,
    r0: int,
    r1: int,
    r2: int,
    r3: int,
    c0: int,
    c1: int,
    c2: int,
    c3: int,
)
    requires
        w0 * m == c0 * 0x10000000000000000 + r0,
        w1 * m + c0 == c1 * 0x10000000000000000 + r1,
        w2 * m + c1 == c2 * 0x10000000000000000 + r2,
        w3 * m + c2 == c3 * 0x10000000000000000 + r3,
    ensures
        r0 + r1 * p64() + r2 * p128() + r3 * p192() + c3 * u256_modulus() == (w0 + w1 * p64() + w2
            * p128() + w3 * p192()) * m,
{
    assert(r0 + r1 * 0x10000000000000000 + r2 * 0x100000000000000000000000000000000nat + r3
        * 0x1000000000000000000000000000000000000000000000000nat + c3
        * 0x10000000000000000000000000000000000000000000000000000000000000000nat == (w0 + w1
        * 0x10000000000000000 + w2 * 0x100000000000000000000000000000000nat + w3
        * 0x1000000000000000000000000000000000000000000000000nat) * m) by (nonlinear_arith)
        requires
            w0 * m == c0 * 0x10000000000000000 + r0,
            w1 * m + c0 == c1 * 0x10000000000000000 + r1,
            w2 * m + c1 == c2 * 0x10000000000000000 + r2,
            w3 * m + c2 == c3 * 0x10000000000000000 + r3,
    ;
}

/// Chained 64-bit groups collapse into one weighted sum.
proof fn lemma_horner4(total: nat, x1: nat, x2: nat, x3: nat, l0: nat, l1: nat, l2: nat, l3: nat)
    requires
        total == l0 + 0x10000000000000000nat * x1,
        x1 == l1 + 0x10000000000000000nat * x2,
        x2 == l2 + 0x10000000000000000nat * x3,
        x3 == l3,
    ensures
        total == l0 + l1 * p64() + l2 * p128() + l3 * p192(),
{
    assert(total == l0 + l1 * 0x10000000000000000nat + l2 * 0x100000000000000000000000000000000nat
        + l3 * 0x1000000000000000000000000000000000000000000000000nat) by (nonlinear_arith)
        requires
            total == l0 + 0x10000000000000000nat * x1,
            x1 == l1 + 0x10000000000000000nat * x2,
            x2 == l2 + 0x10000000000000000nat * x3,
            x3 == l3,
    ;
}

/// The weighted sum of four limbs, regrouped into nested 64-bit steps.
proof fn lemma_flat_to_horner(w0: nat, w1: nat, w2: nat, w3: nat)
    ensures
        w0 + w1 * p64() + w2 * p128() + w3 * p192() == ((w3 * p64() + w2) * p64() + w1) * p64()
            + w0,
{
    assert(w0 + w1 * 0x10000000000000000nat + w2 * 0x100000000000000000000000000000000nat + w3
        * 0x1000000000000000000000000000000000000000000000000nat == ((w3 * 0x10000000000000000nat
        + w2) * 0x10000000000000000nat + w1) * 0x10000000000000000nat + w0) by (nonlinear_arith);
}

/// One step of remainder computation: reducing the more significant part
/// first does not change the remainder.
proof fn lemma_step_mod(a: int, w: int, m: int)
    requires
        m > 0,
        a >= 0,
        w >= 0,
    ensures
        ((a % m) * p64() + w) % m == (a * p64() + w) % m,
{
    lemma_mul_mod_noop_left(a, p64() as int, m);
    lemma_add_mod_noop((a % m) * (p64() as int), w, m);
    lemma_add_mod_noop(a * (p64() as int), w, m);
}

/// The little-endian value of 32 bytes is the weighted sum of its four
/// 64-bit limbs.
proof fn lemma_le_unroll32(s: Seq<u8>)
    requires
        s.len() == 32,
    ensures
        le_nat(s) == le_limb(s, 0) + le_limb(s, 8) * p64() + le_limb(s, 16) * p128() + le_limb(
            s,
            24,
        ) * p192(),
{
    lemma_le_split8(s, 0);
    lemma_le_split8(s, 8);
    lemma_le_split8(s, 16);
    lemma_le_split8(s, 24);
    assert(le_nat_from(s, 32) == 0);
    lemma_horner4(
        le_nat_from(s, 0),
        le_nat_from(s, 8),
        le_nat_from(s, 16),
        le_limb(s, 24),
        le_limb(s, 0),
        le_limb(s, 8),
        le_limb(s, 16),
        le_limb(s, 24),
    );
}

/// The big-endian value of 32 bytes is the weighted sum of its four
/// 64-bit limbs, the first limb the most significant.
proof fn lemma_be_unroll32(s: Seq<u8>)
    requires
        s.len() == 32,
    ensures
        be_nat(s) == be_limb(s, 24) + be_limb(s, 16) * p64() + be_limb(s, 8) * p128() + be_limb(
            s,
            0,
        ) * p192(),
{
    lemma_be_split8(s);
    let t24 = s.take(24);
    lemma_be_split8(t24);
    let t16 = s.take(16);
    assert(t24.take(16) =~= t16);
    lemma_be_split8(t16);
    let t8 = s.take(8);
    assert(t16.take(8) =~= t8);
    lemma_be_split8(t8);
    assert(t8.take(0) =~= Seq::<u8>::empty());
    assert(be_nat(Seq::<u8>::empty()) == 0);
    assert(be_limb(t24, 16) == be_limb(s, 16));
    assert(be_limb(t16, 8) == be_limb(s, 8));
    assert(be_limb(t8, 0) == be_limb(s, 0));
    lemma_horner4(
        be_nat(s),
        be_nat(t24),
        be_nat(t16),
        be_limb(s, 0),
        be_limb(s, 24),
        be_limb(s, 16),
        be_limb(s, 8),
        be_limb(s, 0),
    );
}

/// Regrouping of a four-limb value around its least significant limb.
proof fn lemma_regroup(w0: int, w1: int, w2: int, w3: int)
    ensures
        w0 + w1 * p64() + w2 * p128() + w3 * p192() == (w1 + w2 * p64() + w3 * p128()) * p64()
            + w0,
{
    assert(w0 + w1 * p64() + w2 * p128() + w3 * p192() == (w1 + w2 * p64() + w3 * p128()) * p64()
        + w0) by (nonlinear_arith);
}

} // verus!
