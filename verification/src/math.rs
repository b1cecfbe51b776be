//! The fixed-point kernel: tick/sqrt-price conversions and the per-segment
//! swap arithmetic, relied on from the `uniswap_v3_math` crate.
//!
//! The conversions are bit-exact tables; their values are named by
//! [`sqrt_ratio_of`] and the per-segment arithmetic by [`swap_step_of`],
//! both functions of their arguments alone.

use crate::errors::ArithmeticError;
use crate::u256::U256;
use vstd::prelude::*;

verus! {

pub const MIN_TICK: i32 = -887272;

pub const MAX_TICK: i32 = 887272;

/// The Q64.96 sqrt ratio of the lowest tick.
pub open spec fn min_sqrt_ratio() -> nat {
    4295128739nat
}

/// The Q64.96 sqrt ratio of the highest tick.
pub open spec fn max_sqrt_ratio() -> nat {
    1461446703485210103287273052203988822378723970342nat
}

/// The Q64.96 sqrt ratio table: sqrt(1.0001^t) * 2^96, as the on-chain
/// contract computes it bit for bit.
pub uninterp spec fn sqrt_ratio_of(t: int) -> nat;

/// What one segment of swap arithmetic returns on the given arguments:
/// next sqrt price, amount in, amount out, fee amount, all Q64.96/raw
/// 256-bit values; `None` where the kernel fails. A function of the five
/// arguments alone; the amount remaining is given in its raw
/// two's-complement reading.
pub uninterp spec fn swap_step_of(
    cur: nat,
    target: nat,
    liquidity: nat,
    remaining: nat,
    fee: nat,
) -> Option<(nat, nat, nat, nat)>;

/// The facts the kernel's documentation gives of the ratio table: it is
/// strictly increasing over the tick domain and meets the published bounds
/// at the domain's ends.
pub open spec fn sqrt_ratio_table_facts() -> bool {
    &&& (forall|t1: int, t2: int|
        MIN_TICK <= t1 < t2 <= MAX_TICK ==> sqrt_ratio_of(t1) < sqrt_ratio_of(t2))
    &&& sqrt_ratio_of(MIN_TICK as int) == min_sqrt_ratio()
    &&& sqrt_ratio_of(MAX_TICK as int) == max_sqrt_ratio()
}

/// The greatest tick whose ratio is at most `p`, when one exists.
pub open spec fn floor_tick(p: nat) -> int {
    choose|t: int|
        MIN_TICK <= t < MAX_TICK && #[trigger] sqrt_ratio_of(t) <= p < sqrt_ratio_of(t + 1)
}

/// Whether `p` lies in the ratio range where a floor tick exists.
pub open spec fn has_floor_tick(p: nat) -> bool {
    exists|t: int| MIN_TICK <= t < MAX_TICK && #[trigger] sqrt_ratio_of(t) <= p < sqrt_ratio_of(t + 1)
}

/// Relies on `uniswap_v3_math::tick_math::get_sqrt_ratio_at_tick`: the
/// bit-exact Q64.96 table of sqrt(1.0001^t), strictly increasing in the
/// tick, equal to the published MIN/MAX sqrt ratio constants at the domain
/// ends, and failing exactly outside |t| <= 887272. The extreme 32-bit
/// tick is excluded: the callee negates a negative tick, which has no
/// 32-bit result there.
#[verifier::external_body]
pub fn get_sqrt_ratio_at_tick(tick: i32) -> (r: Result<U256, ArithmeticError>)
    requires
        tick != i32::MIN,
    ensures
        r is Ok <==> MIN_TICK <= tick <= MAX_TICK,
        (r matches Ok(v) ==> v.as_nat() == sqrt_ratio_of(tick as int)
            && sqrt_ratio_table_facts()),
        r is Err ==> sqrt_ratio_table_facts(),
{
    match uniswap_v3_math::tick_math::get_sqrt_ratio_at_tick(tick) {
        Ok(v) => Ok(U256 { lo: v.low_u128(), hi: (v >> 128).low_u128() }),
        Err(_) => Err(ArithmeticError::OutOfDomain),
    }
}

/// Relies on `uniswap_v3_math::tick_math::get_tick_at_sqrt_ratio`: the
/// greatest tick whose table ratio is at most the argument, defined exactly
/// on [MIN_SQRT_RATIO, MAX_SQRT_RATIO).
#[verifier::external_body]
pub fn get_tick_at_sqrt_ratio(p: &U256) -> (r: Result<i32, ArithmeticError>)
    ensures
        r is Ok <==> min_sqrt_ratio() <= p.as_nat() < max_sqrt_ratio(),
        (r matches Ok(t) ==> MIN_TICK <= t < MAX_TICK && sqrt_ratio_of(t as int) <= p.as_nat()
            < sqrt_ratio_of(t as int + 1) && sqrt_ratio_table_facts()),
        r is Err ==> sqrt_ratio_table_facts(),
{
    let v = (ethers::types::U256::from(p.hi) << 128) | ethers::types::U256::from(p.lo);
    match uniswap_v3_math::tick_math::get_tick_at_sqrt_ratio(v) {
        Ok(t) => Ok(t),
        Err(_) => Err(ArithmeticError::OutOfDomain),
    }
}

/// The fact the kernel's source gives of every successful step: the next
/// sqrt price lies between the current price and the target (the step
/// either stops at the target or moves partway toward it).
pub open spec fn swap_step_range_facts() -> bool {
    forall|cur: nat, target: nat, liquidity: nat, remaining: nat, fee: nat|
        match #[trigger] swap_step_of(cur, target, liquidity, remaining, fee) {
            Some(st) => (target <= cur ==> target <= st.0 <= cur) && (cur <= target ==> cur
                <= st.0 <= target),
            None => true,
        }
}

/// Relies on `uniswap_v3_math::swap_math::compute_swap_step`: one segment
/// of exact-input or exact-output swap arithmetic, a pure function of its
/// five arguments, named by `swap_step_of`, whose price component stays
/// between the current price and the target. A fee above one million
/// (the unit is hundredths of a basis point) and the raw amount 2^255
/// are excluded: on those the callee's fee subtraction and amount
/// negation have no representable result.
#[verifier::external_body]
pub fn compute_swap_step(cur: &U256, target: &U256, liquidity: u128, remaining: &U256, fee: u32) -> (r:
    Result<(U256, U256, U256, U256), ArithmeticError>)
    requires
        fee <= 1000000,
        remaining.as_nat()
            != 0x8000000000000000000000000000000000000000000000000000000000000000nat,
    ensures
        match r {
            Ok(v) => swap_step_of(
                cur.as_nat(),
                target.as_nat(),
                liquidity as nat,
                remaining.as_nat(),
                fee as nat,
            ) == Some((v.0.as_nat(), v.1.as_nat(), v.2.as_nat(), v.3.as_nat()))
                && swap_step_range_facts(),
            Err(_) => swap_step_of(
                cur.as_nat(),
                target.as_nat(),
                liquidity as nat,
                remaining.as_nat(),
                fee as nat,
            ) is None && swap_step_range_facts(),
        },
{
    let c = |x: &U256| (ethers::types::U256::from(x.hi) << 128) | ethers::types::U256::from(x.lo);
    let b = |x: ethers::types::U256| U256 { lo: x.low_u128(), hi: (x >> 128).low_u128() };
    let rem = ethers::types::I256::from_raw(c(remaining));
    match uniswap_v3_math::swap_math::compute_swap_step(c(cur), c(target), liquidity, rem, fee) {
        Ok((w, x, y, z)) => Ok((b(w), b(x), b(y), b(z))),
        Err(_) => Err(ArithmeticError::Overflow),
    }
}

/// A bracketing witness pins the floor tick down.
pub proof fn lemma_floor_tick_is(t: int, p: nat)
    requires
        sqrt_ratio_table_facts(),
        MIN_TICK <= t < MAX_TICK,
        sqrt_ratio_of(t) <= p < sqrt_ratio_of(t + 1),
    ensures
        has_floor_tick(p),
        floor_tick(p) == t,
{
    assert(has_floor_tick(p));
    let tw = floor_tick(p);
    if tw < t {
        assert(sqrt_ratio_of(tw + 1) <= sqrt_ratio_of(t));
    }
    if tw > t {
        assert(sqrt_ratio_of(t + 1) <= sqrt_ratio_of(tw));
    }
}

/// Outside the half-open sqrt-ratio range no tick floors the price.
pub proof fn lemma_no_floor_tick(p: nat)
    requires
        sqrt_ratio_table_facts(),
        p < min_sqrt_ratio() || p >= max_sqrt_ratio(),
    ensures
        !has_floor_tick(p),
{
    if has_floor_tick(p) {
        let tw = floor_tick(p);
        if (MIN_TICK as int) < tw {
            assert(sqrt_ratio_of(MIN_TICK as int) < sqrt_ratio_of(tw));
        }
        if tw + 1 < (MAX_TICK as int) {
            assert(sqrt_ratio_of(tw + 1) < sqrt_ratio_of(MAX_TICK as int));
        }
    }
}

/// The round trip from a tick through its sqrt ratio and back returns the
/// same tick, for every tick below the top of the domain. (At the very top
/// the inverse conversion's domain is open and the round trip is rejected.)
pub fn tick_ratio_round_trip(tick: i32) -> (r: Result<i32, ArithmeticError>)
    requires
        MIN_TICK <= tick < MAX_TICK,
    ensures
        r == Ok::<i32, ArithmeticError>(tick),
{
    let ratio = match get_sqrt_ratio_at_tick(tick) {
        Ok(v) => v,
        Err(e) => {
            proof {
                assert(false);
            }
            return Err(e);
        },
    };
    proof {
        if tick > MIN_TICK {
            assert(sqrt_ratio_of(MIN_TICK as int) < sqrt_ratio_of(tick as int));
        }
        assert(sqrt_ratio_of(tick as int) < sqrt_ratio_of(MAX_TICK as int));
    }
    match get_tick_at_sqrt_ratio(&ratio) {
        Ok(t) => {
            proof {
                if t < tick {
                    assert(sqrt_ratio_of(t as int + 1) <= sqrt_ratio_of(tick as int));
                }
                if t > tick {
                    assert(sqrt_ratio_of(tick as int + 1) <= sqrt_ratio_of(t as int)
                        || tick as int + 1 == t as int);
                    assert(sqrt_ratio_of(tick as int + 1) <= sqrt_ratio_of(t as int));
                }
            }
            Ok(t)
        },
        Err(e) => {
            proof {
                assert(false);
            }
            Err(e)
        },
    }
}

} // verus!
