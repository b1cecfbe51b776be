//! Unsigned 256-bit integers as pairs of 128-bit limbs.
//!
//! The pool stores sqrt prices, bitmap words and raw signed amounts in this
//! type. Its mathematical value is given by [`U256::as_nat`]; the raw
//! two's-complement reading used for swap amounts by [`U256::as_i256`].

use vstd::prelude::*;

verus! {

/// 2^128, the weight of the high limb.
pub open spec fn limb_base() -> nat {
    0x100000000000000000000000000000000nat
}

/// 2^256, the modulus of wrapping 256-bit arithmetic.
pub open spec fn u256_base() -> nat {
    0x10000000000000000000000000000000000000000000000000000000000000000nat
}

/// An unsigned 256-bit integer, low limb first.
#[derive(Clone, Copy, Debug, PartialEq, Eq, Structural)]
pub struct U256 {
    pub lo: u128,
    pub hi: u128,
}

impl U256 {
    /// The value as a mathematical integer in `[0, 2^256)`.
    pub open spec fn as_nat(self) -> nat {
        (self.hi as nat) * limb_base() + (self.lo as nat)
    }

    /// The value read as a two's-complement signed 256-bit integer.
    pub open spec fn as_i256(self) -> int {
        if self.hi >= 0x80000000000000000000000000000000 {
            self.as_nat() - u256_base()
        } else {
            self.as_nat() as int
        }
    }

    /// Bit `i` of the value, counting from the least significant.
    pub open spec fn spec_bit(self, i: int) -> bool {
        if 0 <= i < 128 {
            (self.lo >> (i as u128)) & 1 == 1
        } else if 128 <= i < 256 {
            (self.hi >> ((i - 128) as u128)) & 1 == 1
        } else {
            false
        }
    }

    pub fn zero() -> (r: U256)
        ensures
            r.as_nat() == 0,
    {
        U256 { lo: 0, hi: 0 }
    }

    pub fn from_u128(v: u128) -> (r: U256)
        ensures
            r.as_nat() == v,
    {
        U256 { lo: v, hi: 0 }
    }

    pub fn is_zero(&self) -> (r: bool)
        ensures
            r == (self.as_nat() == 0),
    {
        self.lo == 0 && self.hi == 0
    }

    pub fn lt(&self, other: &U256) -> (r: bool)
        ensures
            r == (self.as_nat() < other.as_nat()),
    {
        proof {
            lemma_limbs_order(*self, *other);
        }
        self.hi < other.hi || (self.hi == other.hi && self.lo < other.lo)
    }

    /// Addition modulo 2^256.
    pub fn wrapping_add(&self, other: &U256) -> (r: U256)
        ensures
            r.as_nat() == ((self.as_nat() + other.as_nat()) as int) % (u256_base() as int),
    {
        let lo = self.lo.wrapping_add(other.lo);
        let carry: u128 = if lo < self.lo {
            1
        } else {
            0
        };
        let hi = self.hi.wrapping_add(other.hi).wrapping_add(carry);
        proof {
            lemma_add_limbs(*self, *other, lo, carry, hi);
        }
        U256 { lo, hi }
    }

    /// Subtraction modulo 2^256.
    pub fn wrapping_sub(&self, other: &U256) -> (r: U256)
        ensures
            r.as_nat() == (self.as_nat() - other.as_nat()) % (u256_base() as int),
    {
        let lo = self.lo.wrapping_sub(other.lo);
        let borrow: u128 = if self.lo < other.lo {
            1
        } else {
            0
        };
        let hi = self.hi.wrapping_sub(other.hi).wrapping_sub(borrow);
        proof {
            lemma_sub_limbs(*self, *other, lo, borrow, hi);
        }
        U256 { lo, hi }
    }

    /// Two's-complement negation, `(2^256 - v) mod 2^256`.
    pub fn wrapping_neg(&self) -> (r: U256)
        ensures
            r.as_nat() == (0 - self.as_nat()) % (u256_base() as int),
    {
        let z = U256 { lo: 0, hi: 0 };
        z.wrapping_sub(self)
    }

    /// Bit `i` of the value.
    pub fn bit(&self, i: u8) -> (r: bool)
        ensures
            r == self.spec_bit(i as int),
    {
        if i < 128 {
            (self.lo >> (i as u128)) & 1 == 1
        } else {
            (self.hi >> ((i - 128) as u128)) & 1 == 1
        }
    }

    /// The word with exactly bit `i` set.
    pub fn one_bit(i: u8) -> (r: U256)
        ensures
            forall|j: int| r.spec_bit(j) == (j == i as int),
            r.as_nat() != 0,
            r.lo == (if i < 128 {
                1u128 << (i as u128)
            } else {
                0u128
            }),
            r.hi == (if i < 128 {
                0u128
            } else {
                1u128 << ((i - 128) as u128)
            }),
    {
        if i < 128 {
            let r = U256 { lo: 1u128 << (i as u128), hi: 0 };
            proof {
                assert forall|j: int| r.spec_bit(j) == (j == i as int) by {
                    if 0 <= j < 128 {
                        lemma_one_bit_shift(i as u128, j as u128);
                    } else if 128 <= j < 256 {
                        lemma_shift_of_zero((j - 128) as u128);
                    }
                }
                let sh: u128 = i as u128;
                assert((1u128 << sh) != 0) by (bit_vector)
                    requires
                        sh < 128,
                ;
            }
            r
        } else {
            let r = U256 { lo: 0, hi: 1u128 << ((i - 128) as u128) };
            proof {
                assert forall|j: int| r.spec_bit(j) == (j == i as int) by {
                    if 0 <= j < 128 {
                        lemma_shift_of_zero(j as u128);
                    } else if 128 <= j < 256 {
                        lemma_one_bit_shift((i - 128) as u128, (j - 128) as u128);
                    }
                }
                let sh: u128 = (i - 128) as u128;
                assert((1u128 << sh) != 0) by (bit_vector)
                    requires
                        sh < 128,
                ;
                assert(r.hi != 0);
                assert(r.as_nat() >= limb_base()) by (nonlinear_arith)
                    requires
                        r.hi >= 1,
                        r.as_nat() == r.hi * limb_base() + r.lo,
                ;
            }
            r
        }
    }

    /// Exclusive or, limb by limb; flips exactly the bits set in `other`.
    pub fn bitxor(&self, other: &U256) -> (r: U256)
        ensures
            r.lo == self.lo ^ other.lo,
            r.hi == self.hi ^ other.hi,
            forall|j: int|
                0 <= j < 256 ==> r.spec_bit(j) == (self.spec_bit(j) != other.spec_bit(j)),
    {
        let r = U256 { lo: self.lo ^ other.lo, hi: self.hi ^ other.hi };
        proof {
            assert forall|j: int|
                0 <= j < 256 implies r.spec_bit(j) == (self.spec_bit(j) != other.spec_bit(
                j,
            )) by {
                if j < 128 {
                    lemma_xor_bit(self.lo, other.lo, j as u128);
                } else {
                    lemma_xor_bit(self.hi, other.hi, (j - 128) as u128);
                }
            }
        }
        r
    }
}

/// Two values are equal exactly when their numeric values are.
pub proof fn lemma_u256_eq(a: U256, b: U256)
    ensures
        (a == b) == (a.as_nat() == b.as_nat()),
{
    lemma_limbs_order(a, b);
    lemma_limbs_order(b, a);
}

/// Limb-wise comparison agrees with the order of the values.
proof fn lemma_limbs_order(a: U256, b: U256)
    ensures
        (a.as_nat() < b.as_nat()) == (a.hi < b.hi || (a.hi == b.hi && a.lo < b.lo)),
{
    if a.hi < b.hi {
        assert(a.as_nat() < b.as_nat()) by (nonlinear_arith)
            requires
                a.hi < b.hi,
                a.lo < limb_base(),
                b.lo < limb_base(),
                a.as_nat() == a.hi * limb_base() + a.lo,
                b.as_nat() == b.hi * limb_base() + b.lo,
        ;
    } else if a.hi > b.hi {
        assert(b.as_nat() < a.as_nat()) by (nonlinear_arith)
            requires
                b.hi < a.hi,
                a.lo < limb_base(),
                b.lo < limb_base(),
                a.as_nat() == a.hi * limb_base() + a.lo,
                b.as_nat() == b.hi * limb_base() + b.lo,
        ;
    }
}

/// Carry propagation for 256-bit addition.
proof fn lemma_add_limbs(a: U256, b: U256, lo: u128, carry: u128, hi: u128)
    requires
        lo == (a.lo + b.lo) % (limb_base() as int),
        carry == (if lo < a.lo {
            1int
        } else {
            0int
        }),
        hi == (a.hi + b.hi + carry) % (limb_base() as int),
    ensures
        (U256 { lo, hi }).as_nat() == ((a.as_nat() + b.as_nat()) as int) % (u256_base() as int),
{
    let p: int = limb_base() as int;
    let q: int = u256_base() as int;
    let ls: int = a.lo + b.lo;
    assert(limb_base() * limb_base() == u256_base());
    // Low limb: carry is set exactly when the low sum wrapped.
    assert(lo == ls % p && (carry == ls / p)) by {
        if ls < p {
            assert(ls % p == ls) by (nonlinear_arith)
                requires
                    0 <= ls < p,
            ;
            assert(ls / p == 0) by (nonlinear_arith)
                requires
                    0 <= ls < p,
            ;
        } else {
            assert(ls % p == ls - p && ls / p == 1) by (nonlinear_arith)
                requires
                    p <= ls < 2 * p,
            ;
        }
    }
    let hs: int = a.hi + b.hi + carry;
    let s: int = (a.as_nat() + b.as_nat()) as int;
    assert(s == hs * p + lo) by (nonlinear_arith)
        requires
            s == a.hi * p + a.lo + b.hi * p + b.lo,
            a.lo + b.lo == carry * p + lo,
            hs == a.hi + b.hi + carry,
    ;
    if hs < p {
        assert(hi == hs) by (nonlinear_arith)
            requires
                hi == hs % p,
                0 <= hs < p,
        ;
        assert(s < q && s == hi * p + lo) by (nonlinear_arith)
            requires
                s == hs * p + lo,
                hi == hs,
                0 <= hs < p,
                0 <= lo < p,
                p * p == q,
        ;
        assert(s % q == s) by (nonlinear_arith)
            requires
                0 <= s < q,
        ;
    } else {
        assert(hi == hs - p) by (nonlinear_arith)
            requires
                hi == hs % p,
                p <= hs < 2 * p,
        ;
        assert(s - q == hi * p + lo && 0 <= s - q < q) by (nonlinear_arith)
            requires
                s == hs * p + lo,
                hi == hs - p,
                p <= hs < 2 * p,
                0 <= lo < p,
                0 <= hi < p,
                p * p == q,
        ;
        assert(s % q == s - q) by (nonlinear_arith)
            requires
                0 <= s - q < q,
                q > 0,
        ;
    }
}

/// Borrow propagation for 256-bit subtraction.
proof fn lemma_sub_limbs(a: U256, b: U256, lo: u128, borrow: u128, hi: u128)
    requires
        lo == (a.lo - b.lo) % (limb_base() as int),
        borrow == (if a.lo < b.lo {
            1int
        } else {
            0int
        }),
        hi == (a.hi - b.hi - borrow) % (limb_base() as int),
    ensures
        (U256 { lo, hi }).as_nat() == (a.as_nat() - b.as_nat()) % (u256_base() as int),
{
    let p: int = limb_base() as int;
    let q: int = u256_base() as int;
    assert(limb_base() * limb_base() == u256_base());
    let ld: int = a.lo - b.lo;
    assert(lo == ld + borrow * p) by {
        if a.lo < b.lo {
            assert(ld % p == ld + p) by (nonlinear_arith)
                requires
                    0 - p < ld < 0,
            ;
        } else {
            assert(ld % p == ld) by (nonlinear_arith)
                requires
                    0 <= ld < p,
            ;
        }
    }
    let hd: int = a.hi - b.hi - borrow;
    let d: int = a.as_nat() - b.as_nat();
    assert(d == hd * p + lo) by (nonlinear_arith)
        requires
            d == a.hi * p + a.lo - b.hi * p - b.lo,
            lo == a.lo - b.lo + borrow * p,
            hd == a.hi - b.hi - borrow,
    ;
    if hd >= 0 {
        assert(hi == hd) by (nonlinear_arith)
            requires
                hi == hd % p,
                0 <= hd < p,
        ;
        assert(0 <= d < q && d == hi * p + lo) by (nonlinear_arith)
            requires
                d == hd * p + lo,
                hi == hd,
                0 <= hd < p,
                0 <= lo < p,
                p * p == q,
        ;
        assert(d % q == d) by (nonlinear_arith)
            requires
                0 <= d < q,
        ;
    } else {
        assert(hi == hd + p) by (nonlinear_arith)
            requires
                hi == hd % p,
                0 - p <= hd < 0,
        ;
        assert(d + q == hi * p + lo && 0 - q <= d < 0) by (nonlinear_arith)
            requires
                d == hd * p + lo,
                hi == hd + p,
                0 - p <= hd < 0,
                0 <= lo < p,
                0 <= hi < p,
                p * p == q,
        ;
        assert(d % q == d + q) by (nonlinear_arith)
            requires
                0 - q <= d < 0,
                q > 0,
        ;
    }
}

/// A single set bit survives a right shift exactly at its own index.
proof fn lemma_one_bit_shift(i: u128, j: u128)
    by (bit_vector)
    requires
        i < 128,
        j < 128,
    ensures
        (((1u128 << i) >> j) & 1 == 1) == (i == j),
{
}

/// Every bit of zero is clear.
proof fn lemma_shift_of_zero(j: u128)
    by (bit_vector)
    ensures
        (0u128 >> j) & 1 != 1,
{
}

/// Exclusive or acts bitwise.
proof fn lemma_xor_bit(x: u128, y: u128, j: u128)
    by (bit_vector)
    requires
        j < 128,
    ensures
        (((x ^ y) >> j) & 1 == 1) == (((x >> j) & 1 == 1) != ((y >> j) & 1 == 1)),
{
}

} // verus!
