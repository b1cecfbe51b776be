//! Signed 32-bit division helpers.
//!
//! The tick machinery needs two roundings: floor (toward negative infinity),
//! used when compressing a tick onto the bitmap grid, and truncation (toward
//! zero), the rounding of the on-chain bit flip.

use vstd::arithmetic::div_mod::lemma_fundamental_div_mod;
use vstd::arithmetic::div_mod::lemma_fundamental_div_mod_converse;
use vstd::math::abs;
use vstd::prelude::*;

verus! {

/// Division truncated toward zero, the rounding of the `/` operator
/// of the replicated contract's host language.
pub open spec fn trunc_div(a: int, b: int) -> int {
    let q = abs(a) as int / abs(b) as int;
    if (a < 0) != (b < 0) {
        -q
    } else {
        q
    }
}

/// The compressed tick: `tick / spacing` rounded toward negative infinity.
pub open spec fn spec_compress(tick: int, spacing: int) -> int {
    if tick < 0 && trunc_div(tick, spacing) * spacing != tick {
        trunc_div(tick, spacing) - 1
    } else {
        trunc_div(tick, spacing)
    }
}

/// Floor division by a positive divisor.
pub fn floor_div_i32(a: i32, b: i32) -> (q: i32)
    requires
        b >= 1,
    ensures
        q == a as int / b as int,
        q == spec_compress(a as int, b as int),
{
    let ai: Ghost<int> = Ghost(a as int);
    let bi: Ghost<int> = Ghost(b as int);
    let q: i32 = if a >= 0 {
        let qu: u32 = (a as u32) / (b as u32);
        proof {
            assert(qu <= a) by (nonlinear_arith)
                requires
                    qu == a as int / b as int,
                    a >= 0,
                    b >= 1,
            ;
        }
        qu as i32
    } else {
        let na: u64 = (-(a as i64)) as u64;
        let nb: u64 = b as u64;
        let q0: u64 = na / nb;
        let r: u64 = na % nb;
        proof {
            lemma_fundamental_div_mod(na as int, nb as int);
            assert(q0 <= na) by (nonlinear_arith)
                requires
                    q0 == na as int / nb as int,
                    na >= 0,
                    nb >= 1,
            ;
        }
        if r == 0 {
            proof {
                assert(ai@ == (-(q0 as int)) * bi@ + 0) by (nonlinear_arith)
                    requires
                        na == q0 * (nb as int),
                        ai@ == -(na as int),
                        bi@ == nb as int,
                ;
                lemma_fundamental_div_mod_converse(ai@, bi@, -(q0 as int), 0);
            }
            (-(q0 as i64)) as i32
        } else {
            proof {
                assert(ai@ == (-(q0 as int) - 1) * bi@ + (bi@ - r)) by (nonlinear_arith)
                    requires
                        na == q0 * (nb as int) + r,
                        ai@ == -(na as int),
                        bi@ == nb as int,
                ;
                lemma_fundamental_div_mod_converse(ai@, bi@, -(q0 as int) - 1, bi@ - r);
                assert(q0 <= na - 1) by (nonlinear_arith)
                    requires
                        na == q0 * (nb as int) + r,
                        r >= 1,
                        nb >= 1,
                        q0 >= 0,
                ;
            }
            (-(q0 as i64) - 1) as i32
        }
    };
    proof {
        lemma_compress_is_floor(a as int, b as int);
    }
    q
}

/// Division truncated toward zero.
pub fn trunc_div_i32(a: i32, b: i32) -> (q: i32)
    requires
        b != 0,
        !(a == i32::MIN && b == -1),
    ensures
        q == trunc_div(a as int, b as int),
{
    let na: u64 = if a >= 0 {
        a as u64
    } else {
        (-(a as i64)) as u64
    };
    let nb: u64 = if b >= 0 {
        b as u64
    } else {
        (-(b as i64)) as u64
    };
    let q0: u64 = na / nb;
    proof {
        assert(abs(a as int) == na as int && abs(b as int) == nb as int);
        assert(q0 <= na) by (nonlinear_arith)
            requires
                q0 == na as int / nb as int,
                na >= 0,
                nb >= 1,
        ;
        if a < 0 && b < 0 {
            if b == -1 {
                assert(na <= i32::MAX as u64);
            } else {
                assert(q0 * 2 <= q0 * (nb as int)) by (nonlinear_arith)
                    requires
                        nb >= 2,
                        q0 >= 0,
                ;
                lemma_fundamental_div_mod(na as int, nb as int);
                vstd::arithmetic::div_mod::lemma_mod_bound(na as int, nb as int);
                assert(q0 <= na / 2);
            }
        }
    }
    if (a < 0) != (b < 0) {
        (-(q0 as i64)) as i32
    } else {
        q0 as i32
    }
}

/// The floor-compressed tick scales back to a bracket around the tick.
pub proof fn lemma_compress_brackets(t: int, s: int)
    requires
        s >= 1,
    ensures
        spec_compress(t, s) * s <= t,
        t < (spec_compress(t, s) + 1) * s,
{
    lemma_compress_is_floor(t, s);
    let c = t / s;
    vstd::arithmetic::div_mod::lemma_fundamental_div_mod(t, s);
    vstd::arithmetic::div_mod::lemma_mod_bound(t, s);
    assert(c * s <= t && t < (c + 1) * s) by (nonlinear_arith)
        requires
            t == s * c + t % s,
            0 <= t % s < s,
    ;
}

/// For a positive divisor the adjusted truncating division is the floor.
pub proof fn lemma_compress_is_floor(t: int, s: int)
    requires
        s >= 1,
    ensures
        spec_compress(t, s) == t / s,
{
    let q = abs(t) as int / s;
    let r = abs(t) as int % s;
    lemma_fundamental_div_mod(abs(t) as int, s);
    vstd::arithmetic::div_mod::lemma_mod_bound(abs(t) as int, s);
    if t >= 0 {
        assert(trunc_div(t, s) == q);
        lemma_fundamental_div_mod_converse(t, s, q, r);
    } else {
        assert(abs(t) == -t);
        assert(trunc_div(t, s) == -q);
        if r == 0 {
            assert(t == (-q) * s + 0) by (nonlinear_arith)
                requires
                    0 - t == q * s,
            ;
            lemma_fundamental_div_mod_converse(t, s, -q, 0);
            assert(trunc_div(t, s) * s == t) by (nonlinear_arith)
                requires
                    trunc_div(t, s) == -q,
                    t == (-q) * s + 0,
            ;
        } else {
            assert(t == (-q - 1) * s + (s - r)) by (nonlinear_arith)
                requires
                    0 - t == q * s + r,
            ;
            lemma_fundamental_div_mod_converse(t, s, -q - 1, s - r);
            assert(trunc_div(t, s) * s != t) by (nonlinear_arith)
                requires
                    trunc_div(t, s) == -q,
                    0 - t == q * s + r,
                    0 < r < s,
            ;
        }
    }
}

} // verus!
