//! Position bookkeeping: applying a liquidity delta to a tick range.
//!
//! Everything a mint or burn event does to the replica is described by the
//! spec model [`spec_modify_position`]; the executable methods are proved to
//! realize it exactly, with all-or-nothing failure on arithmetic overflow.

use crate::bitmap::{word_of, word_pos_fits};
use crate::errors::ArithmeticError;
use crate::intdiv::trunc_div;
use crate::pool::{Info, UniswapV3Pool};
use crate::u256::U256;
use vstd::prelude::*;

verus! {

/// The tick entry, an absent entry reading as the default.
pub open spec fn info_of(m: Map<i32, Info>, t: i32) -> Info {
    if m.contains_key(t) {
        m[t]
    } else {
        Info { liquidity_gross: 0, liquidity_net: 0, initialized: false }
    }
}

/// One endpoint update: gross moves by `delta`, net by `delta` on a lower
/// endpoint and `-delta` on an upper one; the tick flips when the gross
/// count crosses zero. `None` when a counter would leave its range.
pub open spec fn spec_update_tick(info: Info, delta: int, upper: bool) -> Option<(Info, bool)> {
    let gross_after = info.liquidity_gross + delta;
    let net_after = if upper {
        info.liquidity_net - delta
    } else {
        info.liquidity_net + delta
    };
    if gross_after < 0 || gross_after > u128::MAX || net_after < i128::MIN || net_after
        > i128::MAX {
        None
    } else {
        Some(
            (
                Info {
                    liquidity_gross: gross_after as u128,
                    liquidity_net: net_after as i128,
                    initialized: info.initialized || info.liquidity_gross == 0,
                },
                (gross_after == 0) != (info.liquidity_gross == 0),
            ),
        )
    }
}

/// The word with bit `b` inverted.
pub open spec fn word_with_flipped(w: U256, b: int) -> U256 {
    if 0 <= b < 128 {
        U256 { lo: w.lo ^ (1u128 << (b as u128)), hi: w.hi }
    } else if 128 <= b < 256 {
        U256 { lo: w.lo, hi: w.hi ^ (1u128 << ((b - 128) as u128)) }
    } else {
        w
    }
}

/// The bitmap after toggling the bit of `tick / spacing` (truncating
/// division); `None` when that word index does not fit the key space.
pub open spec fn spec_flip(bm: Map<i16, U256>, tick: int, spacing: int) -> Option<Map<i16, U256>> {
    let c = trunc_div(tick, spacing);
    if word_pos_fits(c) {
        let wp = (c / 256) as i16;
        Some(bm.insert(wp, word_with_flipped(word_of(bm, wp), c % 256)))
    } else {
        None
    }
}

/// The tick table after an endpoint-pair update: both endpoints move,
/// in lower-then-upper order, and an endpoint whose gross count returned
/// to zero under a negative delta loses its entry.
pub open spec fn spec_update_position_ticks(
    m: Map<i32, Info>,
    lower: i32,
    upper: i32,
    delta: int,
) -> Option<(Map<i32, Info>, bool, bool)> {
    if delta == 0 {
        Some((m, false, false))
    } else {
        match spec_update_tick(info_of(m, lower), delta, false) {
            None => None,
            Some((new_l, flip_l)) => {
                let info_u = if upper == lower {
                    new_l
                } else {
                    info_of(m, upper)
                };
                match spec_update_tick(info_u, delta, true) {
                    None => None,
                    Some((new_u, flip_u)) => {
                        let m2 = m.insert(lower, new_l).insert(upper, new_u);
                        let m3 = if delta < 0 && flip_l {
                            m2.remove(lower)
                        } else {
                            m2
                        };
                        let m4 = if delta < 0 && flip_u {
                            m3.remove(upper)
                        } else {
                            m3
                        };
                        Some((m4, flip_l, flip_u))
                    },
                }
            },
        }
    }
}

/// The bitmap after an endpoint-pair update: each endpoint that flipped has
/// its bit toggled.
pub open spec fn spec_update_position_bitmap(
    bm: Map<i16, U256>,
    lower: i32,
    upper: i32,
    spacing: int,
    flip_l: bool,
    flip_u: bool,
) -> Option<Map<i16, U256>> {
    let bm1 = if flip_l {
        spec_flip(bm, lower as int, spacing)
    } else {
        Some(bm)
    };
    match bm1 {
        None => None,
        Some(b1) => {
            if flip_u {
                spec_flip(b1, upper as int, spacing)
            } else {
                Some(b1)
            }
        },
    }
}

/// The endpoint-pair update on tick table and bitmap together.
pub open spec fn spec_update_position(
    ticks: Map<i32, Info>,
    bm: Map<i16, U256>,
    lower: i32,
    upper: i32,
    spacing: int,
    delta: int,
) -> Option<(Map<i32, Info>, Map<i16, U256>)> {
    match spec_update_position_ticks(ticks, lower, upper, delta) {
        None => None,
        Some((new_ticks, flip_l, flip_u)) => {
            match spec_update_position_bitmap(bm, lower, upper, spacing, flip_l, flip_u) {
                None => None,
                Some(new_bm) => Some((new_ticks, new_bm)),
            }
        },
    }
}

/// The whole effect of `modify_position` on `(ticks, tick_bitmap,
/// liquidity)`: the endpoint-pair update, and the active-liquidity
/// adjustment when the current tick lies strictly between the endpoints.
pub open spec fn spec_modify_position(
    ticks: Map<i32, Info>,
    bm: Map<i16, U256>,
    liquidity: u128,
    tick: i32,
    spacing: int,
    lower: i32,
    upper: i32,
    delta: int,
) -> Option<(Map<i32, Info>, Map<i16, U256>, u128)> {
    match spec_update_position(ticks, bm, lower, upper, spacing, delta) {
        None => None,
        Some((new_ticks, new_bm)) => {
            let new_liq = if delta != 0 && lower < tick < upper {
                liquidity + delta
            } else {
                liquidity as int
            };
            if 0 <= new_liq <= u128::MAX {
                Some((new_ticks, new_bm, new_liq as u128))
            } else {
                None
            }
        },
    }
}

/// The magnitude of a signed 128-bit value as unsigned.
pub(crate) fn mag_i128(x: i128) -> (r: u128)
    ensures
        r == (if x >= 0 {
            x as int
        } else {
            -(x as int)
        }),
{
    if x == i128::MIN {
        0x80000000000000000000000000000000u128
    } else if x < 0 {
        (-x) as u128
    } else {
        x as u128
    }
}

/// One endpoint update as a pure value computation.
fn update_tick_info(info: Info, delta: i128, upper: bool) -> (r: Result<(Info, bool), ArithmeticError>)
    ensures
        match r {
            Ok(p) => spec_update_tick(info, delta as int, upper) == Some(p),
            Err(_) => spec_update_tick(info, delta as int, upper) is None,
        },
{
    let gross_before = info.liquidity_gross;
    let mag = mag_i128(delta);
    let gross_after: u128 = if delta < 0 {
        match gross_before.checked_sub(mag) {
            Some(g) => g,
            None => {
                return Err(ArithmeticError::Overflow);
            },
        }
    } else {
        match gross_before.checked_add(mag) {
            Some(g) => g,
            None => {
                return Err(ArithmeticError::Overflow);
            },
        }
    };
    let net_after: i128 = if upper {
        match info.liquidity_net.checked_sub(delta) {
            Some(n) => n,
            None => {
                return Err(ArithmeticError::Overflow);
            },
        }
    } else {
        match info.liquidity_net.checked_add(delta) {
            Some(n) => n,
            None => {
                return Err(ArithmeticError::Overflow);
            },
        }
    };
    let flipped = (gross_after == 0) != (gross_before == 0);
    let initialized = info.initialized || gross_before == 0;
    Ok((Info { liquidity_gross: gross_after, liquidity_net: net_after, initialized }, flipped))
}

impl UniswapV3Pool {
    /// Toggles the bitmap bit of `tick / tick_spacing` (truncating
    /// division), creating the word when absent.
    pub fn flip_tick(&mut self, tick: i32, tick_spacing: i32) -> (r: Result<(), ArithmeticError>)
        requires
            tick_spacing != 0,
            !(tick == i32::MIN && tick_spacing == -1),
        ensures
            match r {
                Ok(_) => spec_flip(old(self).tick_bitmap@, tick as int, tick_spacing as int)
                    == Some(final(self).tick_bitmap@),
                Err(_) => spec_flip(old(self).tick_bitmap@, tick as int, tick_spacing as int)
                    is None && final(self).tick_bitmap@ == old(self).tick_bitmap@,
            },
            final(self).ticks@ == old(self).ticks@,
            final(self).address == old(self).address,
            final(self).token_a == old(self).token_a,
            final(self).token_b == old(self).token_b,
            final(self).token_a_decimals == old(self).token_a_decimals,
            final(self).token_b_decimals == old(self).token_b_decimals,
            final(self).fee == old(self).fee,
            final(self).liquidity == old(self).liquidity,
            final(self).sqrt_price == old(self).sqrt_price,
            final(self).tick == old(self).tick,
            final(self).tick_spacing == old(self).tick_spacing,
    {
        broadcast use vstd::std_specs::hash::group_hash_axioms;

        let c = crate::intdiv::trunc_div_i32(tick, tick_spacing);
        if c < -0x800000 || c >= 0x800000 {
            return Err(ArithmeticError::Overflow);
        }
        let wp32 = crate::intdiv::floor_div_i32(c, 256);
        let wp: i16 = wp32 as i16;
        let bp32: i32 = c - wp32 * 256;
        proof {
            vstd::arithmetic::div_mod::lemma_fundamental_div_mod(c as int, 256);
            vstd::arithmetic::div_mod::lemma_mod_bound(c as int, 256);
        }
        let bp: u8 = bp32 as u8;
        let word: U256 = match self.tick_bitmap.get(&wp) {
            Some(w) => *w,
            None => U256::zero(),
        };
        let mask = U256::one_bit(bp);
        let flipped = word.bitxor(&mask);
        proof {
            assert(word == word_of(old(self).tick_bitmap@, wp));
            let whi = word.hi;
            let wlo = word.lo;
            assert(whi ^ 0u128 == whi) by (bit_vector);
            assert(wlo ^ 0u128 == wlo) by (bit_vector);
            assert(flipped == word_with_flipped(word, bp as int));
        }
        self.tick_bitmap.insert(wp, flipped);
        Ok(())
    }

    /// The stored entry for a tick, the default when absent.
    fn tick_info_or_default(&self, t: i32) -> (r: Info)
        ensures
            r == info_of(self.ticks@, t),
    {
        broadcast use vstd::std_specs::hash::group_hash_axioms;

        match self.ticks.get(&t) {
            Some(i) => *i,
            None => Info { liquidity_gross: 0, liquidity_net: 0, initialized: false },
        }
    }

    /// Applies a liquidity delta to one endpoint of a position and
    /// returns whether the tick's initialized state flipped; the bitmap is
    /// the caller's to flip. Fails, leaving the pool unchanged, when a
    /// liquidity counter would leave its range.
    pub fn update_tick(&mut self, tick: i32, liquidity_delta: i128, upper: bool) -> (r: Result<
        bool,
        ArithmeticError,
    >)
        ensures
            match r {
                Ok(flipped) => spec_update_tick(
                    info_of(old(self).ticks@, tick),
                    liquidity_delta as int,
                    upper,
                ) matches Some(p) && final(self).ticks@ == old(self).ticks@.insert(tick, p.0)
                    && flipped == p.1,
                Err(_) => spec_update_tick(
                    info_of(old(self).ticks@, tick),
                    liquidity_delta as int,
                    upper,
                ) is None && final(self).ticks@ == old(self).ticks@,
            },
            final(self).tick_bitmap@ == old(self).tick_bitmap@,
            final(self).address == old(self).address,
            final(self).token_a == old(self).token_a,
            final(self).token_b == old(self).token_b,
            final(self).token_a_decimals == old(self).token_a_decimals,
            final(self).token_b_decimals == old(self).token_b_decimals,
            final(self).fee == old(self).fee,
            final(self).liquidity == old(self).liquidity,
            final(self).sqrt_price == old(self).sqrt_price,
            final(self).tick == old(self).tick,
            final(self).tick_spacing == old(self).tick_spacing,
    {
        broadcast use vstd::std_specs::hash::group_hash_axioms;

        let info = self.tick_info_or_default(tick);
        let (new_info, flipped) = match update_tick_info(info, liquidity_delta, upper) {
            Ok(p) => p,
            Err(e) => {
                return Err(e);
            },
        };
        self.ticks.insert(tick, new_info);
        Ok(flipped)
    }

    /// Applies a liquidity delta to both endpoints of a position and flips
    /// the bitmap bits of the endpoints whose gross count crossed zero.
    /// Fails, leaving the pool unchanged, when a counter or a bitmap
    /// coordinate would leave its range.
    pub fn update_position(&mut self, tick_lower: i32, tick_upper: i32, liquidity_delta: i128) -> (r:
        Result<(), ArithmeticError>)
        requires
            old(self).tick_spacing != 0,
            !(tick_lower == i32::MIN && old(self).tick_spacing == -1),
            !(tick_upper == i32::MIN && old(self).tick_spacing == -1),
        ensures
            match r {
                Ok(_) => spec_update_position(
                    old(self).ticks@,
                    old(self).tick_bitmap@,
                    tick_lower,
                    tick_upper,
                    old(self).tick_spacing as int,
                    liquidity_delta as int,
                ) == Some((final(self).ticks@, final(self).tick_bitmap@)),
                Err(_) => spec_update_position(
                    old(self).ticks@,
                    old(self).tick_bitmap@,
                    tick_lower,
                    tick_upper,
                    old(self).tick_spacing as int,
                    liquidity_delta as int,
                ) is None && final(self).ticks@ == old(self).ticks@ && final(self).tick_bitmap@
                    == old(self).tick_bitmap@,
            },
            final(self).address == old(self).address,
            final(self).token_a == old(self).token_a,
            final(self).token_b == old(self).token_b,
            final(self).token_a_decimals == old(self).token_a_decimals,
            final(self).token_b_decimals == old(self).token_b_decimals,
            final(self).fee == old(self).fee,
            final(self).liquidity == old(self).liquidity,
            final(self).sqrt_price == old(self).sqrt_price,
            final(self).tick == old(self).tick,
            final(self).tick_spacing == old(self).tick_spacing,
    {
        broadcast use vstd::std_specs::hash::group_hash_axioms;

        if liquidity_delta == 0 {
            return Ok(());
        }
        let info_l = self.tick_info_or_default(tick_lower);
        let (new_l, flip_l) = match update_tick_info(info_l, liquidity_delta, false) {
            Ok(p) => p,
            Err(e) => {
                return Err(e);
            },
        };
        let info_u = if tick_upper == tick_lower {
            new_l
        } else {
            self.tick_info_or_default(tick_upper)
        };
        let (new_u, flip_u) = match update_tick_info(info_u, liquidity_delta, true) {
            Ok(p) => p,
            Err(e) => {
                return Err(e);
            },
        };
        let ts = self.tick_spacing;
        if flip_l {
            let cl = crate::intdiv::trunc_div_i32(tick_lower, ts);
            if cl < -0x800000 || cl >= 0x800000 {
                return Err(ArithmeticError::Overflow);
            }
        }
        if flip_u {
            let cu = crate::intdiv::trunc_div_i32(tick_upper, ts);
            if cu < -0x800000 || cu >= 0x800000 {
                return Err(ArithmeticError::Overflow);
            }
        }
        self.ticks.insert(tick_lower, new_l);
        self.ticks.insert(tick_upper, new_u);
        if flip_l {
            match self.flip_tick(tick_lower, ts) {
                Ok(_) => (),
                Err(e) => {
                    proof {
                        assert(false);
                    }
                    return Err(e);
                },
            }
        }
        if flip_u {
            match self.flip_tick(tick_upper, ts) {
                Ok(_) => (),
                Err(e) => {
                    proof {
                        assert(false);
                    }
                    return Err(e);
                },
            }
        }
        if liquidity_delta < 0 {
            if flip_l {
                self.ticks.remove(&tick_lower);
            }
            if flip_u {
                self.ticks.remove(&tick_upper);
            }
        }
        Ok(())
    }

    /// Applies a position change: both endpoints, their bitmap bits, and,
    /// when the current tick lies strictly inside the range, the active
    /// liquidity. Fails, leaving the pool unchanged, when a counter or a
    /// bitmap coordinate would leave its range.
    pub fn modify_position(&mut self, tick_lower: i32, tick_upper: i32, liquidity_delta: i128) -> (r:
        Result<(), ArithmeticError>)
        requires
            old(self).tick_spacing != 0,
            !(tick_lower == i32::MIN && old(self).tick_spacing == -1),
            !(tick_upper == i32::MIN && old(self).tick_spacing == -1),
        ensures
            match r {
                Ok(_) => spec_modify_position(
                    old(self).ticks@,
                    old(self).tick_bitmap@,
                    old(self).liquidity,
                    old(self).tick,
                    old(self).tick_spacing as int,
                    tick_lower,
                    tick_upper,
                    liquidity_delta as int,
                ) == Some((final(self).ticks@, final(self).tick_bitmap@, final(self).liquidity)),
                Err(_) => spec_modify_position(
                    old(self).ticks@,
                    old(self).tick_bitmap@,
                    old(self).liquidity,
                    old(self).tick,
                    old(self).tick_spacing as int,
                    tick_lower,
                    tick_upper,
                    liquidity_delta as int,
                ) is None && final(self).ticks@ == old(self).ticks@ && final(self).tick_bitmap@
                    == old(self).tick_bitmap@ && final(self).liquidity == old(self).liquidity,
            },
            final(self).address == old(self).address,
            final(self).token_a == old(self).token_a,
            final(self).token_b == old(self).token_b,
            final(self).token_a_decimals == old(self).token_a_decimals,
            final(self).token_b_decimals == old(self).token_b_decimals,
            final(self).fee == old(self).fee,
            final(self).sqrt_price == old(self).sqrt_price,
            final(self).tick == old(self).tick,
            final(self).tick_spacing == old(self).tick_spacing,
    {
        let new_liquidity: u128 = if liquidity_delta != 0 && self.tick > tick_lower && self.tick
            < tick_upper {
            let mag = mag_i128(liquidity_delta);
            if liquidity_delta < 0 {
                match self.liquidity.checked_sub(mag) {
                    Some(l) => l,
                    None => {
                        return Err(ArithmeticError::Overflow);
                    },
                }
            } else {
                match self.liquidity.checked_add(mag) {
                    Some(l) => l,
                    None => {
                        return Err(ArithmeticError::Overflow);
                    },
                }
            }
        } else {
            self.liquidity
        };
        match self.update_position(tick_lower, tick_upper, liquidity_delta) {
            Ok(_) => (),
            Err(e) => {
                return Err(e);
            },
        }
        self.liquidity = new_liquidity;
        Ok(())
    }
}

} // verus!
