//! The tick bitmap: one bit per spacing-multiple tick, 256 ticks per word.

use crate::errors::ArithmeticError;
use crate::intdiv::{floor_div_i32, spec_compress};
use crate::u256::U256;
use std::collections::HashMap;
use vstd::prelude::*;

verus! {

/// The stored word at index `w`, an absent word reading as all clear.
pub open spec fn word_of(bm: Map<i16, U256>, w: i16) -> U256 {
    if bm.contains_key(w) {
        bm[w]
    } else {
        U256 { lo: 0, hi: 0 }
    }
}

/// Whether the word index of compressed tick `c` fits the 16-bit word key.
pub open spec fn word_pos_fits(c: int) -> bool {
    -0x800000 <= c < 0x800000
}

/// The bitmap bit of compressed tick `c`.
pub open spec fn tick_bit(bm: Map<i16, U256>, c: int) -> bool {
    word_pos_fits(c) && word_of(bm, (c / 256) as i16).spec_bit(c % 256)
}

/// The highest set bit of `w` at or below `b`, scanning downward.
pub open spec fn scan_down(w: U256, b: int) -> Option<int>
    decreases b + 1,
{
    if b < 0 {
        None
    } else if w.spec_bit(b) {
        Some(b)
    } else {
        scan_down(w, b - 1)
    }
}

/// The lowest set bit of `w` at or above `b`, scanning upward.
pub open spec fn scan_up(w: U256, b: int) -> Option<int>
    decreases 256 - b,
{
    if b > 255 {
        None
    } else if w.spec_bit(b) {
        Some(b)
    } else {
        scan_up(w, b + 1)
    }
}

/// A downward scan lands at or below its start.
pub proof fn lemma_scan_down_le(w: U256, b: int)
    ensures
        scan_down(w, b) matches Some(x) ==> 0 <= x <= b,
    decreases b + 1,
{
    if b >= 0 && !w.spec_bit(b) {
        lemma_scan_down_le(w, b - 1);
    }
}

/// An upward scan lands at or above its start.
pub proof fn lemma_scan_up_ge(w: U256, b: int)
    ensures
        scan_up(w, b) matches Some(x) ==> b <= x <= 255,
    decreases 256 - b,
{
    if b <= 255 && !w.spec_bit(b) {
        lemma_scan_up_ge(w, b + 1);
    }
}

/// The word search never skips past its start: searching down it returns
/// a tick at or below the given one, searching up one strictly above.
pub proof fn lemma_next_init_bounds(bm: Map<i16, U256>, tick: int, spacing: int, lte: bool)
    requires
        spacing >= 1,
        next_init_spec(bm, tick, spacing, lte) is Some,
    ensures
        lte ==> next_init_spec(bm, tick, spacing, lte).unwrap().0 <= tick,
        !lte ==> next_init_spec(bm, tick, spacing, lte).unwrap().0 >= tick + 1,
{
    let c = spec_compress(tick, spacing);
    crate::intdiv::lemma_compress_brackets(tick, spacing);
    if lte {
        let w = word_of(bm, (c / 256) as i16);
        let bp = c % 256;
        vstd::arithmetic::div_mod::lemma_mod_bound(c, 256);
        lemma_scan_down_le(w, bp);
        let nc = match scan_down(w, bp) {
            Some(b) => c - (bp - b),
            None => c - bp,
        };
        assert(nc <= c);
        assert(nc * spacing <= c * spacing) by (nonlinear_arith)
            requires
                nc <= c,
                spacing >= 1,
        ;
    } else {
        let c1 = c + 1;
        let w = word_of(bm, (c1 / 256) as i16);
        let bp = c1 % 256;
        vstd::arithmetic::div_mod::lemma_mod_bound(c1, 256);
        lemma_scan_up_ge(w, bp);
        let nc = match scan_up(w, bp) {
            Some(b) => c1 + (b - bp),
            None => c1 + (255 - bp),
        };
        assert(nc >= c1);
        assert(nc * spacing >= c1 * spacing) by (nonlinear_arith)
            requires
                nc >= c1,
                spacing >= 1,
        ;
        assert(c1 * spacing == (c + 1) * spacing);
    }
}

pub open spec fn fits_i32(x: int) -> bool {
    -0x80000000 <= x <= 0x7fffffff
}

/// What the word search returns: the next initialized tick at or below
/// (`lte`) or strictly above the given tick within one bitmap word, or the
/// word's boundary when the word holds no set bit in that direction. `None`
/// is an arithmetic failure: a word index beyond the 16-bit key space or a
/// result beyond the 32-bit tick space.
pub open spec fn next_init_spec(bm: Map<i16, U256>, tick: int, spacing: int, lte: bool) -> Option<
    (int, bool),
> {
    let c = spec_compress(tick, spacing);
    if lte {
        if !word_pos_fits(c) {
            None
        } else {
            let w = word_of(bm, (c / 256) as i16);
            let bp = c % 256;
            let step = match scan_down(w, bp) {
                Some(b) => (c - (bp - b), true),
                None => (c - bp, false),
            };
            if fits_i32(step.0 * spacing) {
                Some((step.0 * spacing, step.1))
            } else {
                None
            }
        }
    } else {
        let c1 = c + 1;
        if !word_pos_fits(c1) {
            None
        } else {
            let w = word_of(bm, (c1 / 256) as i16);
            let bp = c1 % 256;
            let step = match scan_up(w, bp) {
                Some(b) => (c1 + (b - bp), true),
                None => (c1 + (255 - bp), false),
            };
            if fits_i32(step.0 * spacing) {
                Some((step.0 * spacing, step.1))
            } else {
                None
            }
        }
    }
}

/// From the word containing `tick / spacing`, the next initialized tick at
/// or below `tick` (`lte`) or strictly above it, in unscaled tick units,
/// with whether a set bit was found; the word boundary otherwise.
pub fn next_initialized_tick_within_one_word(
    bitmap: &HashMap<i16, U256>,
    tick: i32,
    spacing: i32,
    lte: bool,
) -> (r: Result<(i32, bool), ArithmeticError>)
    requires
        spacing >= 1,
    ensures
        match r {
            Ok(p) => next_init_spec(bitmap@, tick as int, spacing as int, lte) == Some(
                (p.0 as int, p.1),
            ),
            Err(_) => next_init_spec(bitmap@, tick as int, spacing as int, lte) is None,
        },
{
    broadcast use vstd::std_specs::hash::group_hash_axioms;

    let c = floor_div_i32(tick, spacing);
    let target: i32 = if lte {
        c
    } else {
        if c == i32::MAX {
            return Err(ArithmeticError::Overflow);
        }
        c + 1
    };
    if target < -0x800000 || target >= 0x800000 {
        return Err(ArithmeticError::Overflow);
    }
    let wp32 = floor_div_i32(target, 256);
    let wp: i16 = wp32 as i16;
    let bp32: i32 = target - wp32 * 256;
    proof {
        vstd::arithmetic::div_mod::lemma_fundamental_div_mod(target as int, 256);
        vstd::arithmetic::div_mod::lemma_mod_bound(target as int, 256);
    }
    let bp: u8 = bp32 as u8;
    let word: U256 = match bitmap.get(&wp) {
        Some(w) => *w,
        None => U256::zero(),
    };
    proof {
        assert(word == word_of(bitmap@, wp));
    }
    let step: (i32, bool) = if lte {
        let mut b: u8 = bp;
        let mut res: Option<u8> = None;
        loop
            invariant_except_break
                b <= bp,
                res is None,
                scan_down(word, bp as int) == scan_down(word, b as int),
            ensures
                match res {
                    Some(x) => x <= bp && scan_down(word, bp as int) == Some(x as int),
                    None => scan_down(word, bp as int) is None,
                },
            decreases b,
        {
            if word.bit(b) {
                res = Some(b);
                break ;
            }
            if b == 0 {
                proof {
                    assert(scan_down(word, -1) is None);
                }
                break ;
            }
            b = b - 1;
        }
        match res {
            Some(x) => (target - ((bp - x) as i32), true),
            None => (target - (bp as i32), false),
        }
    } else {
        let mut b: u8 = bp;
        let mut res: Option<u8> = None;
        loop
            invariant_except_break
                bp <= b <= 255,
                res is None,
                scan_up(word, bp as int) == scan_up(word, b as int),
            ensures
                match res {
                    Some(x) => bp <= x && scan_up(word, bp as int) == Some(x as int),
                    None => scan_up(word, bp as int) is None,
                },
            decreases 255 - b,
        {
            if word.bit(b) {
                res = Some(b);
                break ;
            }
            if b == 255 {
                proof {
                    assert(scan_up(word, 256) is None);
                }
                break ;
            }
            b = b + 1;
        }
        match res {
            Some(x) => (target + ((x - bp) as i32), true),
            None => (target + ((255 - bp) as i32), false),
        }
    };
    proof {
        assert((step.0 as int) * (spacing as int) <= 0x4000000000000000int && (step.0 as int) * (
        spacing as int) >= -0x4000000000000000int) by (nonlinear_arith)
            requires
                -0x80000000 <= step.0 <= 0x7fffffff,
                1 <= spacing <= 0x7fffffff,
        ;
    }
    let next64: i64 = (step.0 as i64) * (spacing as i64);
    if next64 < -0x80000000i64 || next64 > 0x7fffffffi64 {
        return Err(ArithmeticError::Overflow);
    }
    Ok((next64 as i32, step.1))
}

} // verus!
