//! The swap simulator: walks the tick bitmap segment by segment, applying
//! the fixed-point kernel, until the input is spent or the price limit is
//! reached.
//!
//! The loop is modelled by the small-step spec machine [`swap_step_spec`] /
//! [`swap_reach`]; both simulators are proved to return exactly the
//! machine's terminal state, so the pure simulator is a function of the
//! pool state and the inputs, and the in-place simulator commits exactly
//! the transient state the pure one ends in.

use crate::bitmap::lemma_next_init_bounds;
use crate::bitmap::next_init_spec;
use crate::bitmap::next_initialized_tick_within_one_word;
use crate::errors::SwapSimulationError;
use crate::math::{
    compute_swap_step, floor_tick, get_sqrt_ratio_at_tick, get_tick_at_sqrt_ratio, has_floor_tick,
    max_sqrt_ratio, min_sqrt_ratio, sqrt_ratio_of, swap_step_of, MAX_TICK, MIN_TICK,
};
use crate::mutator::mag_i128;
use crate::pool::{Address, Info, UniswapV3Pool};
use crate::u256::{u256_base, U256};
use vstd::prelude::*;

verus! {

/// The most loop iterations a simulation will attempt; enough for a walk
/// over every word of the bitmap and every initialized tick.
pub const SWAP_FUEL: u64 = 16777216;

/// Transient per-swap state, discarded on return. The two amounts are raw
/// two's-complement 256-bit values.
#[derive(Clone, Copy, Debug, PartialEq, Eq, Structural)]
pub struct CurrentState {
    pub amount_specified_remaining: U256,
    pub amount_calculated: U256,
    pub sqrt_price_x_96: U256,
    pub tick: i32,
    pub liquidity: u128,
}

/// Scratch of one loop segment.
pub struct StepComputations {
    pub sqrt_price_start_x_96: U256,
    pub tick_next: i32,
    pub initialized: bool,
    pub sqrt_price_next_x96: U256,
    pub amount_in: U256,
    pub amount_out: U256,
    pub fee_amount: U256,
}

/// The transient state as mathematical values.
pub struct SwapSpecState {
    pub remaining: nat,
    pub calculated: nat,
    pub price: nat,
    pub tick: int,
    pub liquidity: nat,
}

/// Reduction of a value modulo 2^256.
pub open spec fn mod256(x: int) -> nat {
    (x % (u256_base() as int)) as nat
}

pub open spec fn proj_state(cs: CurrentState) -> SwapSpecState {
    SwapSpecState {
        remaining: cs.amount_specified_remaining.as_nat(),
        calculated: cs.amount_calculated.as_nat(),
        price: cs.sqrt_price_x_96.as_nat(),
        tick: cs.tick as int,
        liquidity: cs.liquidity as nat,
    }
}

/// The price limit of a swap: one step inside the representable sqrt-ratio
/// range, on the side the price moves toward.
pub open spec fn swap_limit(zfo: bool) -> nat {
    if zfo {
        min_sqrt_ratio() + 1
    } else {
        (max_sqrt_ratio() - 1) as nat
    }
}

/// The loop stops when the input is spent or the price limit is reached.
pub open spec fn swap_done(s: SwapSpecState, zfo: bool) -> bool {
    s.remaining == 0 || s.price == swap_limit(zfo)
}

/// One segment of the simulation: find the next candidate tick in the
/// current bitmap word, clamp it to the tick domain, run the kernel toward
/// the nearer of its ratio and the price limit, book the amounts, and cross
/// or re-derive the tick. `None` is a failed simulation: a kernel error, an
/// initialized bit with no tick entry, or a liquidity counter leaving its
/// range.
pub open spec fn swap_step_spec(
    bm: Map<i16, U256>,
    ticks: Map<i32, Info>,
    spacing: i32,
    fee: u32,
    zfo: bool,
    s: SwapSpecState,
) -> Option<SwapSpecState> {
    if spacing < 1 || fee > 1000000 || s.remaining
        == 0x8000000000000000000000000000000000000000000000000000000000000000nat {
        None
    } else {
        match next_init_spec(bm, s.tick, spacing as int, zfo) {
            None => None,
            Some(ni) => {
                let tick_next: int = clamp_tick(ni.0);
                let initialized = ni.1;
                let spn = sqrt_ratio_of(tick_next);
                let target: nat = if zfo {
                    if spn < swap_limit(zfo) {
                        swap_limit(zfo)
                    } else {
                        spn
                    }
                } else {
                    if spn > swap_limit(zfo) {
                        swap_limit(zfo)
                    } else {
                        spn
                    }
                };
                match swap_step_of(s.price, target, s.liquidity, s.remaining, fee as nat) {
                    None => None,
                    Some(st) => {
                        let rem2 = mod256(s.remaining - mod256((st.1 + st.3) as int));
                        let calc2 = mod256(s.calculated - st.2);
                        if st.0 == spn {
                            if initialized {
                                if !ticks.contains_key(tick_next as i32) {
                                    None
                                } else {
                                    let net = ticks[tick_next as i32].liquidity_net as int;
                                    let eff = if zfo {
                                        -net
                                    } else {
                                        net
                                    };
                                    let liq2 = s.liquidity + eff;
                                    if liq2 < 0 || liq2 > u128::MAX {
                                        None
                                    } else {
                                        Some(
                                            SwapSpecState {
                                                remaining: rem2,
                                                calculated: calc2,
                                                price: st.0,
                                                tick: if zfo {
                                                    tick_next - 1
                                                } else {
                                                    tick_next
                                                },
                                                liquidity: liq2 as nat,
                                            },
                                        )
                                    }
                                }
                            } else {
                                Some(
                                    SwapSpecState {
                                        remaining: rem2,
                                        calculated: calc2,
                                        price: st.0,
                                        tick: s.tick,
                                        liquidity: s.liquidity,
                                    },
                                )
                            }
                        } else if st.0 != s.price {
                            if has_floor_tick(st.0) {
                                Some(
                                    SwapSpecState {
                                        remaining: rem2,
                                        calculated: calc2,
                                        price: st.0,
                                        tick: floor_tick(st.0),
                                        liquidity: s.liquidity,
                                    },
                                )
                            } else {
                                None
                            }
                        } else {
                            Some(
                                SwapSpecState {
                                    remaining: rem2,
                                    calculated: calc2,
                                    price: st.0,
                                    tick: s.tick,
                                    liquidity: s.liquidity,
                                },
                            )
                        }
                    },
                }
            },
        }
    }
}

/// The error a failed segment reports: an inconsistency between bitmap
/// and tick table, or an active-liquidity counter leaving its range, is
/// corrupted replica state; every other failure is a math error.
pub open spec fn swap_step_err(
    bm: Map<i16, U256>,
    ticks: Map<i32, Info>,
    spacing: i32,
    fee: u32,
    zfo: bool,
    s: SwapSpecState,
) -> SwapSimulationError {
    if spacing < 1 || fee > 1000000 || s.remaining
        == 0x8000000000000000000000000000000000000000000000000000000000000000nat {
        SwapSimulationError::Math
    } else {
        match next_init_spec(bm, s.tick, spacing as int, zfo) {
            None => SwapSimulationError::Math,
            Some(ni) => {
                let tick_next: int = clamp_tick(ni.0);
                let spn = sqrt_ratio_of(tick_next);
                let target: nat = if zfo {
                    if spn < swap_limit(zfo) {
                        swap_limit(zfo)
                    } else {
                        spn
                    }
                } else {
                    if spn > swap_limit(zfo) {
                        swap_limit(zfo)
                    } else {
                        spn
                    }
                };
                match swap_step_of(s.price, target, s.liquidity, s.remaining, fee as nat) {
                    None => SwapSimulationError::Math,
                    Some(st) => if st.0 == spn && ni.1 {
                        SwapSimulationError::CorruptedState
                    } else {
                        SwapSimulationError::Math
                    },
                }
            },
        }
    }
}

/// The machine state after `n` segments, `None` once a segment fails or
/// when the machine had already stopped earlier.
pub open spec fn swap_reach(
    bm: Map<i16, U256>,
    ticks: Map<i32, Info>,
    spacing: i32,
    fee: u32,
    zfo: bool,
    init: SwapSpecState,
    n: nat,
) -> Option<SwapSpecState>
    decreases n,
{
    if n == 0 {
        Some(init)
    } else {
        match swap_reach(bm, ticks, spacing, fee, zfo, init, (n - 1) as nat) {
            None => None,
            Some(s1) => if swap_done(s1, zfo) {
                None
            } else {
                swap_step_spec(bm, ticks, spacing, fee, zfo, s1)
            },
        }
    }
}

/// The machine stops in a terminal state within `fuel` segments.
pub open spec fn swap_terminates(
    bm: Map<i16, U256>,
    ticks: Map<i32, Info>,
    spacing: i32,
    fee: u32,
    zfo: bool,
    init: SwapSpecState,
    fuel: nat,
) -> bool {
    exists|n: nat|
        n <= fuel && ((#[trigger] swap_reach(bm, ticks, spacing, fee, zfo, init, n)) matches Some(
        f) && swap_done(f, zfo))
}

/// The terminal state, where one exists within the fuel budget.
pub open spec fn swap_final(
    bm: Map<i16, U256>,
    ticks: Map<i32, Info>,
    spacing: i32,
    fee: u32,
    zfo: bool,
    init: SwapSpecState,
) -> SwapSpecState {
    let p = choose|p: (SwapSpecState, nat)|
        p.1 <= SWAP_FUEL && swap_reach(bm, ticks, spacing, fee, zfo, init, p.1) == Some(p.0) && (
        #[trigger] swap_done(p.0, zfo));
    p.0
}

/// Some segment within the fuel budget fails.
pub open spec fn swap_fails_within(
    bm: Map<i16, U256>,
    ticks: Map<i32, Info>,
    spacing: i32,
    fee: u32,
    zfo: bool,
    init: SwapSpecState,
) -> bool {
    exists|p: (SwapSpecState, nat)|
        p.1 < SWAP_FUEL && swap_reach(bm, ticks, spacing, fee, zfo, init, p.1) == Some(p.0)
            && !swap_done(p.0, zfo) && (#[trigger] swap_step_spec(bm, ticks, spacing, fee, zfo, p.0))
            is None
}

/// The error a failed simulation reports: the failing segment's error,
/// or a math error when the fuel budget runs out first.
pub open spec fn swap_error(
    bm: Map<i16, U256>,
    ticks: Map<i32, Info>,
    spacing: i32,
    fee: u32,
    zfo: bool,
    init: SwapSpecState,
) -> SwapSimulationError {
    if swap_fails_within(bm, ticks, spacing, fee, zfo, init) {
        let p = choose|p: (SwapSpecState, nat)|
            p.1 < SWAP_FUEL && swap_reach(bm, ticks, spacing, fee, zfo, init, p.1) == Some(p.0)
                && !swap_done(p.0, zfo) && (#[trigger] swap_step_spec(
                bm,
                ticks,
                spacing,
                fee,
                zfo,
                p.0,
            )) is None;
        swap_step_err(bm, ticks, spacing, fee, zfo, p.0)
    } else {
        SwapSimulationError::Math
    }
}

/// A failed or stopped machine stays so.
proof fn lemma_reach_none_persists(
    bm: Map<i16, U256>,
    ticks: Map<i32, Info>,
    spacing: i32,
    fee: u32,
    zfo: bool,
    init: SwapSpecState,
    n: nat,
    m: nat,
)
    requires
        n <= m,
        swap_reach(bm, ticks, spacing, fee, zfo, init, n) is None,
    ensures
        swap_reach(bm, ticks, spacing, fee, zfo, init, m) is None,
    decreases m,
{
    if m > n {
        lemma_reach_none_persists(bm, ticks, spacing, fee, zfo, init, n, (m - 1) as nat);
    }
}

/// Before a successful step count, no earlier state was terminal.
proof fn lemma_reach_prefix(
    bm: Map<i16, U256>,
    ticks: Map<i32, Info>,
    spacing: i32,
    fee: u32,
    zfo: bool,
    init: SwapSpecState,
    n: nat,
    m: nat,
)
    requires
        m < n,
        swap_reach(bm, ticks, spacing, fee, zfo, init, n) is Some,
    ensures
        swap_reach(bm, ticks, spacing, fee, zfo, init, m) is Some,
        !swap_done(swap_reach(bm, ticks, spacing, fee, zfo, init, m).unwrap(), zfo),
    decreases n,
{
    if m + 1 < n {
        lemma_reach_prefix(bm, ticks, spacing, fee, zfo, init, (n - 1) as nat, m);
    }
}

/// Terminal states are unique: the machine is deterministic and stops at
/// its first terminal state.
pub proof fn lemma_swap_final_unique(
    bm: Map<i16, U256>,
    ticks: Map<i32, Info>,
    spacing: i32,
    fee: u32,
    zfo: bool,
    init: SwapSpecState,
    n1: nat,
    n2: nat,
)
    requires
        swap_reach(bm, ticks, spacing, fee, zfo, init, n1) matches Some(f1) && swap_done(f1, zfo),
        swap_reach(bm, ticks, spacing, fee, zfo, init, n2) matches Some(f2) && swap_done(f2, zfo),
    ensures
        n1 == n2,
        swap_reach(bm, ticks, spacing, fee, zfo, init, n1) == swap_reach(
            bm,
            ticks,
            spacing,
            fee,
            zfo,
            init,
            n2,
        ),
{
    if n1 < n2 {
        lemma_reach_prefix(bm, ticks, spacing, fee, zfo, init, n2, n1);
    }
    if n2 < n1 {
        lemma_reach_prefix(bm, ticks, spacing, fee, zfo, init, n1, n2);
    }
}

/// The failing segment, where one exists, is unique: the machine is
/// deterministic and stops at its first failure.
proof fn lemma_swap_fail_unique(
    bm: Map<i16, U256>,
    ticks: Map<i32, Info>,
    spacing: i32,
    fee: u32,
    zfo: bool,
    init: SwapSpecState,
    k1: nat,
    k2: nat,
)
    requires
        swap_reach(bm, ticks, spacing, fee, zfo, init, k1) matches Some(s1) && !swap_done(s1, zfo)
            && swap_step_spec(bm, ticks, spacing, fee, zfo, s1) is None,
        swap_reach(bm, ticks, spacing, fee, zfo, init, k2) matches Some(s2) && !swap_done(s2, zfo)
            && swap_step_spec(bm, ticks, spacing, fee, zfo, s2) is None,
    ensures
        k1 == k2,
        swap_reach(bm, ticks, spacing, fee, zfo, init, k1) == swap_reach(
            bm,
            ticks,
            spacing,
            fee,
            zfo,
            init,
            k2,
        ),
{
    if k1 < k2 {
        assert(swap_reach(bm, ticks, spacing, fee, zfo, init, k1 + 1) is None);
        lemma_reach_none_persists(bm, ticks, spacing, fee, zfo, init, k1 + 1, k2);
    }
    if k2 < k1 {
        assert(swap_reach(bm, ticks, spacing, fee, zfo, init, k2 + 1) is None);
        lemma_reach_none_persists(bm, ticks, spacing, fee, zfo, init, k2 + 1, k1);
    }
}

/// A state the machine reaches without stopping, whose next segment fails,
/// rules every terminal state out.
proof fn lemma_no_terminal(
    bm: Map<i16, U256>,
    ticks: Map<i32, Info>,
    spacing: i32,
    fee: u32,
    zfo: bool,
    init: SwapSpecState,
    k: nat,
    cur: SwapSpecState,
)
    requires
        swap_reach(bm, ticks, spacing, fee, zfo, init, k) == Some(cur),
        !swap_done(cur, zfo),
        swap_step_spec(bm, ticks, spacing, fee, zfo, cur) is None,
    ensures
        forall|fuel: nat| !swap_terminates(bm, ticks, spacing, fee, zfo, init, fuel),
{
    assert forall|fuel: nat| !swap_terminates(bm, ticks, spacing, fee, zfo, init, fuel) by {
        assert forall|n: nat|
            !((#[trigger] swap_reach(bm, ticks, spacing, fee, zfo, init, n)) matches Some(f)
                && swap_done(f, zfo)) by {
            if n <= k {
                if swap_reach(bm, ticks, spacing, fee, zfo, init, n) is Some {
                    if n < k {
                        lemma_reach_prefix(bm, ticks, spacing, fee, zfo, init, k, n);
                    }
                }
            } else {
                assert(swap_reach(bm, ticks, spacing, fee, zfo, init, k + 1) is None);
                lemma_reach_none_persists(bm, ticks, spacing, fee, zfo, init, k + 1, n);
            }
        }
    }
}

/// At a reached, unfinished state whose next segment fails, the
/// simulation's error is that segment's error.
proof fn lemma_error_at_failure(
    bm: Map<i16, U256>,
    ticks: Map<i32, Info>,
    spacing: i32,
    fee: u32,
    zfo: bool,
    init: SwapSpecState,
    k: nat,
    s: SwapSpecState,
)
    requires
        k < SWAP_FUEL,
        swap_reach(bm, ticks, spacing, fee, zfo, init, k) == Some(s),
        !swap_done(s, zfo),
        swap_step_spec(bm, ticks, spacing, fee, zfo, s) is None,
    ensures
        swap_error(bm, ticks, spacing, fee, zfo, init) == swap_step_err(
            bm,
            ticks,
            spacing,
            fee,
            zfo,
            s,
        ),
{
    let w: (SwapSpecState, nat) = (s, k);
    assert(w.1 < SWAP_FUEL && swap_reach(bm, ticks, spacing, fee, zfo, init, w.1) == Some(w.0)
        && !swap_done(w.0, zfo) && swap_step_spec(bm, ticks, spacing, fee, zfo, w.0) is None);
    assert(swap_fails_within(bm, ticks, spacing, fee, zfo, init));
    let q = choose|q: (SwapSpecState, nat)|
        q.1 < SWAP_FUEL && swap_reach(bm, ticks, spacing, fee, zfo, init, q.1) == Some(q.0)
            && !swap_done(q.0, zfo) && (#[trigger] swap_step_spec(bm, ticks, spacing, fee, zfo, q.0))
            is None;
    lemma_swap_fail_unique(bm, ticks, spacing, fee, zfo, init, k, q.1);
}

/// A machine still running after the whole fuel budget neither terminates
/// nor fails within it, so the simulation reports a math error.
#[verifier::rlimit(100)]
#[verifier::spinoff_prover]
proof fn lemma_error_fuel_exhausted(
    bm: Map<i16, U256>,
    ticks: Map<i32, Info>,
    spacing: i32,
    fee: u32,
    zfo: bool,
    init: SwapSpecState,
    f: SwapSpecState,
)
    requires
        swap_reach(bm, ticks, spacing, fee, zfo, init, SWAP_FUEL as nat) == Some(f),
        !swap_done(f, zfo),
    ensures
        !swap_terminates(bm, ticks, spacing, fee, zfo, init, SWAP_FUEL as nat),
        swap_error(bm, ticks, spacing, fee, zfo, init) == SwapSimulationError::Math,
{
    assert forall|m: nat|
        m <= SWAP_FUEL as nat implies !((#[trigger] swap_reach(
        bm,
        ticks,
        spacing,
        fee,
        zfo,
        init,
        m,
    )) matches Some(g) && swap_done(g, zfo)) by {
        if m < SWAP_FUEL as nat {
            lemma_reach_prefix(bm, ticks, spacing, fee, zfo, init, SWAP_FUEL as nat, m);
        }
    }
    assert forall|q: (SwapSpecState, nat)|
        !(q.1 < SWAP_FUEL && swap_reach(bm, ticks, spacing, fee, zfo, init, q.1) == Some(q.0)
            && !swap_done(q.0, zfo) && (#[trigger] swap_step_spec(bm, ticks, spacing, fee, zfo, q.0))
            is None) by {
        if q.1 < SWAP_FUEL && swap_reach(bm, ticks, spacing, fee, zfo, init, q.1) == Some(q.0)
            && !swap_done(q.0, zfo) {
            if q.1 + 1 < SWAP_FUEL as nat {
                lemma_reach_prefix(bm, ticks, spacing, fee, zfo, init, SWAP_FUEL as nat, (q.1
                    + 1) as nat);
            }
            assert(swap_reach(bm, ticks, spacing, fee, zfo, init, (q.1 + 1) as nat) is Some);
        }
    }
    assert(!swap_fails_within(bm, ticks, spacing, fee, zfo, init));
}

/// The initial transient state of a simulation.
pub open spec fn spec_swap_init(pool: UniswapV3Pool, amount: nat) -> SwapSpecState {
    SwapSpecState {
        remaining: amount,
        calculated: 0,
        price: pool.sqrt_price.as_nat(),
        tick: pool.tick as int,
        liquidity: pool.liquidity as nat,
    }
}

/// The simulation stops within the fuel budget.
pub open spec fn swap_ok(pool: UniswapV3Pool, zfo: bool, amount: nat) -> bool {
    swap_terminates(
        pool.tick_bitmap@,
        pool.ticks@,
        pool.tick_spacing,
        pool.fee,
        zfo,
        spec_swap_init(pool, amount),
        SWAP_FUEL as nat,
    )
}

/// The terminal transient state of the simulation.
pub open spec fn swap_result(pool: UniswapV3Pool, zfo: bool, amount: nat) -> SwapSpecState {
    swap_final(
        pool.tick_bitmap@,
        pool.ticks@,
        pool.tick_spacing,
        pool.fee,
        zfo,
        spec_swap_init(pool, amount),
    )
}

/// The output amount a successful simulation returns: the negation of the
/// booked (negative) output total, as an unsigned 256-bit value.
pub open spec fn swap_output(pool: UniswapV3Pool, zfo: bool, amount: nat) -> nat {
    mod256(0 - swap_result(pool, zfo, amount).calculated)
}

/// The error a failed simulation returns.
pub open spec fn swap_err_of(pool: UniswapV3Pool, zfo: bool, amount: nat) -> SwapSimulationError {
    swap_error(
        pool.tick_bitmap@,
        pool.ticks@,
        pool.tick_spacing,
        pool.fee,
        zfo,
        spec_swap_init(pool, amount),
    )
}

/// A raw candidate tick clamped to the tick domain.
pub open spec fn clamp_tick(t: int) -> int {
    if t < MIN_TICK as int {
        MIN_TICK as int
    } else if t > MAX_TICK as int {
        MAX_TICK as int
    } else {
        t
    }
}

/// The tick is the greatest whose ratio is at or below the price, up to
/// the crossing convention: after a downward crossing the price may sit
/// exactly on the ratio of `tick + 1`.
pub open spec fn tick_brackets_price(s: SwapSpecState) -> bool {
    &&& MIN_TICK - 1 <= s.tick <= MAX_TICK
    &&& (MIN_TICK <= s.tick ==> sqrt_ratio_of(s.tick) <= s.price)
    &&& (s.tick < MAX_TICK ==> s.price <= sqrt_ratio_of(s.tick + 1))
}

/// The price sits exactly on the ratio of the state's own clamped search
/// candidate: the parked position a segment leaves behind when it lands
/// on an uninitialized boundary without moving the tick.
pub open spec fn price_on_step_boundary(
    bm: Map<i16, U256>,
    spacing: i32,
    zfo: bool,
    s: SwapSpecState,
) -> bool {
    &&& next_init_spec(bm, s.tick, spacing as int, zfo) is Some
    &&& s.price == sqrt_ratio_of(
        clamp_tick(next_init_spec(bm, s.tick, spacing as int, zfo).unwrap().0),
    )
}

/// What one segment preserves of the price/tick relation: the bracket,
/// unless the segment parked the price exactly on its own candidate
/// tick's ratio, which the replica inherits from its reference when the
/// candidate is uninitialized.
pub open spec fn price_tracked(
    bm: Map<i16, U256>,
    spacing: i32,
    zfo: bool,
    s: SwapSpecState,
) -> bool {
    tick_brackets_price(s) || price_on_step_boundary(bm, spacing, zfo, s)
}

/// The price's walk so far, relative to where it started: downward swaps
/// only lower it and stay above the minimum ratio, upward swaps only
/// raise it and stay below the maximum.
pub open spec fn price_within(init: SwapSpecState, zfo: bool, s: SwapSpecState) -> bool {
    if zfo {
        min_sqrt_ratio() < s.price <= init.price
    } else {
        init.price <= s.price < max_sqrt_ratio()
    }
}

/// One segment keeps the price/tick relation.
proof fn lemma_step_tracks_price(
    bm: Map<i16, U256>,
    ticks: Map<i32, Info>,
    spacing: i32,
    fee: u32,
    zfo: bool,
    s: SwapSpecState,
)
    requires
        crate::math::sqrt_ratio_table_facts(),
        price_tracked(bm, spacing, zfo, s),
        swap_step_spec(bm, ticks, spacing, fee, zfo, s) is Some,
    ensures
        price_tracked(bm, spacing, zfo, swap_step_spec(bm, ticks, spacing, fee, zfo, s).unwrap()),
{
    let s2 = swap_step_spec(bm, ticks, spacing, fee, zfo, s).unwrap();
    let ni = next_init_spec(bm, s.tick, spacing as int, zfo).unwrap();
    let tick_next = clamp_tick(ni.0);
    let spn = sqrt_ratio_of(tick_next);
    if s2.price == spn {
        if ni.1 {
            if zfo {
                if MIN_TICK <= s2.tick && s2.tick < tick_next {
                    assert(sqrt_ratio_of(s2.tick) < sqrt_ratio_of(tick_next));
                }
            } else {
                if s2.tick < MAX_TICK {
                    assert(sqrt_ratio_of(tick_next) < sqrt_ratio_of(tick_next + 1));
                }
            }
            assert(tick_brackets_price(s2));
        } else {
            assert(s2.tick == s.tick);
            assert(price_on_step_boundary(bm, spacing, zfo, s2));
        }
    } else if s2.price != s.price {
        let tw = floor_tick(s2.price);
        assert(has_floor_tick(s2.price));
        assert(MIN_TICK <= tw < MAX_TICK && sqrt_ratio_of(tw) <= s2.price < sqrt_ratio_of(tw + 1));
        assert(tick_brackets_price(s2));
    } else {
        assert(s2.price == s.price && s2.tick == s.tick);
    }
}

/// One segment moves the price only toward the limit and keeps it inside
/// the representable sqrt-ratio range.
proof fn lemma_step_keeps_range(
    bm: Map<i16, U256>,
    ticks: Map<i32, Info>,
    spacing: i32,
    fee: u32,
    zfo: bool,
    init: SwapSpecState,
    s: SwapSpecState,
)
    requires
        crate::math::sqrt_ratio_table_facts(),
        crate::math::swap_step_range_facts(),
        price_tracked(bm, spacing, zfo, s),
        price_within(init, zfo, s),
        swap_step_spec(bm, ticks, spacing, fee, zfo, s) is Some,
    ensures
        price_within(init, zfo, swap_step_spec(bm, ticks, spacing, fee, zfo, s).unwrap()),
{
    let s2 = swap_step_spec(bm, ticks, spacing, fee, zfo, s).unwrap();
    let ni = next_init_spec(bm, s.tick, spacing as int, zfo).unwrap();
    let tick_next = clamp_tick(ni.0);
    let spn = sqrt_ratio_of(tick_next);
    let limit = swap_limit(zfo);
    let cur = s.price;
    let target: nat = if zfo {
        if spn < limit {
            limit
        } else {
            spn
        }
    } else {
        if spn > limit {
            limit
        } else {
            spn
        }
    };
    lemma_next_init_bounds(bm, s.tick as int, spacing as int, zfo);
    let stp = swap_step_of(s.price, target, s.liquidity, s.remaining, fee as nat);
    assert(stp matches Some(st) && st.0 == s2.price);
    if zfo {
        assert(limit <= cur);
        if tick_brackets_price(s) {
            if s.tick == MIN_TICK - 1 {
                assert(tick_next == MIN_TICK as int);
                assert(spn == min_sqrt_ratio());
            } else {
                assert(MIN_TICK as int <= tick_next <= s.tick);
                if tick_next < s.tick {
                    assert(sqrt_ratio_of(tick_next) < sqrt_ratio_of(s.tick));
                }
                assert(sqrt_ratio_of(s.tick) <= cur);
            }
            assert(spn <= cur);
        } else {
            assert(spn == cur);
        }
        assert(target <= cur);
        assert(target <= s2.price <= cur);
    } else {
        assert(cur <= limit);
        if tick_brackets_price(s) {
            if s.tick == MAX_TICK {
                assert(tick_next == MAX_TICK as int);
                assert(spn == max_sqrt_ratio());
                assert(cur < spn);
            } else {
                assert(s.tick + 1 <= tick_next <= MAX_TICK as int);
                if s.tick + 1 < tick_next {
                    assert(sqrt_ratio_of(s.tick + 1) < sqrt_ratio_of(tick_next));
                }
                assert(cur <= sqrt_ratio_of(s.tick + 1));
            }
            assert(cur <= spn);
        } else {
            assert(spn == cur);
        }
        assert(cur <= target);
        assert(cur <= s2.price <= target);
    }
}

/// Every state the machine reaches keeps the price/tick relation and the
/// price's directed range.
proof fn lemma_reach_tracks_price(
    bm: Map<i16, U256>,
    ticks: Map<i32, Info>,
    spacing: i32,
    fee: u32,
    zfo: bool,
    init: SwapSpecState,
    n: nat,
)
    requires
        crate::math::sqrt_ratio_table_facts(),
        crate::math::swap_step_range_facts(),
        price_tracked(bm, spacing, zfo, init),
        price_within(init, zfo, init),
        swap_reach(bm, ticks, spacing, fee, zfo, init, n) is Some,
    ensures
        price_tracked(bm, spacing, zfo, swap_reach(bm, ticks, spacing, fee, zfo, init, n).unwrap()),
        price_within(init, zfo, swap_reach(bm, ticks, spacing, fee, zfo, init, n).unwrap()),
    decreases n,
{
    if n > 0 {
        lemma_reach_tracks_price(bm, ticks, spacing, fee, zfo, init, (n - 1) as nat);
        let s1 = swap_reach(bm, ticks, spacing, fee, zfo, init, (n - 1) as nat).unwrap();
        lemma_step_keeps_range(bm, ticks, spacing, fee, zfo, init, s1);
        lemma_step_tracks_price(bm, ticks, spacing, fee, zfo, s1);
    }
}

/// After any successful simulation started from a consistent pool, the
/// terminal tick still brackets the terminal sqrt price, or the price
/// sits exactly on its own candidate tick's ratio: the convention the
/// reference implementation leaves at segment ends. The terminal price
/// moreover moved only toward the limit: downward swaps end at or below
/// the starting price, above the minimum ratio; upward swaps at or above
/// it, below the maximum ratio.
pub proof fn lemma_swap_result_tracks_price(pool: UniswapV3Pool, zfo: bool, amount: nat)
    requires
        crate::math::sqrt_ratio_table_facts(),
        crate::math::swap_step_range_facts(),
        price_tracked(pool.tick_bitmap@, pool.tick_spacing, zfo, spec_swap_init(pool, amount)),
        min_sqrt_ratio() < pool.sqrt_price.as_nat() < max_sqrt_ratio(),
        swap_ok(pool, zfo, amount),
    ensures
        price_tracked(pool.tick_bitmap@, pool.tick_spacing, zfo, swap_result(pool, zfo, amount)),
        price_within(spec_swap_init(pool, amount), zfo, swap_result(pool, zfo, amount)),
{
    let bm = pool.tick_bitmap@;
    let tks = pool.ticks@;
    let init = spec_swap_init(pool, amount);
    let n = choose|n: nat|
        n <= SWAP_FUEL as nat && ((#[trigger] swap_reach(
            bm,
            tks,
            pool.tick_spacing,
            pool.fee,
            zfo,
            init,
            n,
        )) matches Some(f) && swap_done(f, zfo));
    lemma_reach_tracks_price(bm, tks, pool.tick_spacing, pool.fee, zfo, init, n);
    let w: (SwapSpecState, nat) = (
        swap_reach(bm, tks, pool.tick_spacing, pool.fee, zfo, init, n).unwrap(),
        n,
    );
    assert(w.1 <= SWAP_FUEL && swap_reach(bm, tks, pool.tick_spacing, pool.fee, zfo, init, w.1)
        == Some(w.0) && swap_done(w.0, zfo));
    let p = choose|p: (SwapSpecState, nat)|
        p.1 <= SWAP_FUEL && swap_reach(bm, tks, pool.tick_spacing, pool.fee, zfo, init, p.1)
            == Some(p.0) && (#[trigger] swap_done(p.0, zfo));
    lemma_swap_final_unique(bm, tks, pool.tick_spacing, pool.fee, zfo, init, n, p.1);
}

impl UniswapV3Pool {
    /// One executable segment of the simulation, realizing
    /// [`swap_step_spec`] exactly.
    #[verifier::rlimit(100)]
    #[verifier::spinoff_prover]
    fn swap_step_exec(&self, zero_for_one: bool, limit: &U256, current: &CurrentState) -> (r:
        Result<CurrentState, SwapSimulationError>)
        requires
            limit.as_nat() == swap_limit(zero_for_one),
        ensures
            match r {
                Ok(c2) => swap_step_spec(
                    self.tick_bitmap@,
                    self.ticks@,
                    self.tick_spacing,
                    self.fee,
                    zero_for_one,
                    proj_state(*current),
                ) == Some(proj_state(c2)),
                Err(e) => swap_step_spec(
                    self.tick_bitmap@,
                    self.ticks@,
                    self.tick_spacing,
                    self.fee,
                    zero_for_one,
                    proj_state(*current),
                ) is None && e == swap_step_err(
                    self.tick_bitmap@,
                    self.ticks@,
                    self.tick_spacing,
                    self.fee,
                    zero_for_one,
                    proj_state(*current),
                ),
            },
    {
        broadcast use vstd::std_specs::hash::group_hash_axioms;

        let mut next = *current;
        if self.tick_spacing < 1 || self.fee > 1000000 {
            return Err(SwapSimulationError::Math);
        }
        if next.amount_specified_remaining.hi == 0x80000000000000000000000000000000u128
            && next.amount_specified_remaining.lo == 0 {
            return Err(SwapSimulationError::Math);
        }
        proof {
            crate::u256::lemma_u256_eq(
                next.amount_specified_remaining,
                U256 { lo: 0, hi: 0x80000000000000000000000000000000u128 },
            );
        }
        let sqrt_price_start_x_96 = next.sqrt_price_x_96;
        let (tick_next_raw, initialized) = match next_initialized_tick_within_one_word(
            &self.tick_bitmap,
            next.tick,
            self.tick_spacing,
            zero_for_one,
        ) {
            Ok(p) => p,
            Err(_) => {
                return Err(SwapSimulationError::Math);
            },
        };
        let tick_next: i32 = if tick_next_raw < MIN_TICK {
            MIN_TICK
        } else if tick_next_raw > MAX_TICK {
            MAX_TICK
        } else {
            tick_next_raw
        };
        let sqrt_price_next_x96 = match get_sqrt_ratio_at_tick(tick_next) {
            Ok(v) => v,
            Err(e) => {
                proof {
                    assert(false);
                }
                return Err(SwapSimulationError::Math);
            },
        };
        let swap_target_sqrt_ratio = if zero_for_one {
            if sqrt_price_next_x96.lt(limit) {
                *limit
            } else {
                sqrt_price_next_x96
            }
        } else {
            if limit.lt(&sqrt_price_next_x96) {
                *limit
            } else {
                sqrt_price_next_x96
            }
        };
        let (sqrt_price_new, amount_in_step, amount_out_step, fee_amount_step) = match
            compute_swap_step(
            &next.sqrt_price_x_96,
            &swap_target_sqrt_ratio,
            next.liquidity,
            &next.amount_specified_remaining,
            self.fee,
        ) {
            Ok(t) => t,
            Err(_) => {
                return Err(SwapSimulationError::Math);
            },
        };
        let in_plus_fee = amount_in_step.wrapping_add(&fee_amount_step);
        next.amount_specified_remaining = next.amount_specified_remaining.wrapping_sub(
            &in_plus_fee,
        );
        next.amount_calculated = next.amount_calculated.wrapping_sub(&amount_out_step);
        next.sqrt_price_x_96 = sqrt_price_new;
        proof {
            crate::u256::lemma_u256_eq(sqrt_price_new, sqrt_price_next_x96);
            crate::u256::lemma_u256_eq(sqrt_price_new, sqrt_price_start_x_96);
        }
        if sqrt_price_new == sqrt_price_next_x96 {
            if initialized {
                let net: i128 = match self.ticks.get(&tick_next) {
                    Some(i) => i.liquidity_net,
                    None => {
                        return Err(SwapSimulationError::CorruptedState);
                    },
                };
                let mag = mag_i128(net);
                let subtract = (zero_for_one && net > 0) || (!zero_for_one && net < 0);
                let new_liq: u128 = if subtract {
                    match next.liquidity.checked_sub(mag) {
                        Some(l) => l,
                        None => {
                            return Err(SwapSimulationError::CorruptedState);
                        },
                    }
                } else {
                    match next.liquidity.checked_add(mag) {
                        Some(l) => l,
                        None => {
                            return Err(SwapSimulationError::CorruptedState);
                        },
                    }
                };
                next.liquidity = new_liq;
                next.tick = if zero_for_one {
                    tick_next - 1
                } else {
                    tick_next
                };
            }
        } else if sqrt_price_new != sqrt_price_start_x_96 {
            let t = match get_tick_at_sqrt_ratio(&next.sqrt_price_x_96) {
                Ok(t) => t,
                Err(_) => {
                    proof {
                        crate::math::lemma_no_floor_tick(sqrt_price_new.as_nat());
                    }
                    return Err(SwapSimulationError::Math);
                },
            };
            proof {
                crate::math::lemma_floor_tick_is(t as int, sqrt_price_new.as_nat());
            }
            next.tick = t;
        }
        Ok(next)
    }

    /// The shared simulation loop: runs the machine to its terminal state.
    #[verifier::rlimit(100)]
    #[verifier::spinoff_prover]
    fn swap_core(&self, zero_for_one: bool, amount_in: &U256) -> (r: Result<
        CurrentState,
        SwapSimulationError,
    >)
        ensures
            match r {
                Ok(cs) => swap_terminates(
                    self.tick_bitmap@,
                    self.ticks@,
                    self.tick_spacing,
                    self.fee,
                    zero_for_one,
                    spec_swap_init(*self, amount_in.as_nat()),
                    SWAP_FUEL as nat,
                ) && proj_state(cs) == swap_final(
                    self.tick_bitmap@,
                    self.ticks@,
                    self.tick_spacing,
                    self.fee,
                    zero_for_one,
                    spec_swap_init(*self, amount_in.as_nat()),
                ),
                Err(e) => !swap_terminates(
                    self.tick_bitmap@,
                    self.ticks@,
                    self.tick_spacing,
                    self.fee,
                    zero_for_one,
                    spec_swap_init(*self, amount_in.as_nat()),
                    SWAP_FUEL as nat,
                ) && e == swap_error(
                    self.tick_bitmap@,
                    self.ticks@,
                    self.tick_spacing,
                    self.fee,
                    zero_for_one,
                    spec_swap_init(*self, amount_in.as_nat()),
                ),
            },
    {
        let limit: U256 = if zero_for_one {
            U256 { lo: 4295128740, hi: 0 }
        } else {
            U256 { lo: 0xefd1fc6a506488495d951d5263988d25, hi: 0xfffd8963 }
        };
        proof {
            assert(limit.as_nat() == swap_limit(zero_for_one));
        }
        let mut current = CurrentState {
            amount_specified_remaining: *amount_in,
            amount_calculated: U256::zero(),
            sqrt_price_x_96: self.sqrt_price,
            tick: self.tick,
            liquidity: self.liquidity,
        };
        let ghost init = spec_swap_init(*self, amount_in.as_nat());
        let ghost bm = self.tick_bitmap@;
        let ghost tks = self.ticks@;
        let mut fuel: u64 = SWAP_FUEL;
        proof {
            assert(proj_state(current) == init);
        }
        while fuel > 0 && !current.amount_specified_remaining.is_zero()
            && current.sqrt_price_x_96 != limit
            invariant
                fuel <= SWAP_FUEL,
                bm == self.tick_bitmap@,
                tks == self.ticks@,
                limit.as_nat() == swap_limit(zero_for_one),
                init == spec_swap_init(*self, amount_in.as_nat()),
                swap_reach(
                    bm,
                    tks,
                    self.tick_spacing,
                    self.fee,
                    zero_for_one,
                    init,
                    (SWAP_FUEL - fuel) as nat,
                ) == Some(proj_state(current)),
            decreases fuel,
        {
            proof {
                crate::u256::lemma_u256_eq(current.sqrt_price_x_96, limit);
                assert(!swap_done(proj_state(current), zero_for_one));
            }
            let ghost pre = proj_state(current);
            let ghost steps: nat = (SWAP_FUEL - fuel) as nat;
            match self.swap_step_exec(zero_for_one, &limit, &current) {
                Ok(c2) => {
                    proof {
                        assert(swap_reach(
                            bm,
                            tks,
                            self.tick_spacing,
                            self.fee,
                            zero_for_one,
                            init,
                            (steps + 1) as nat,
                        ) == Some(proj_state(c2)));
                    }
                    current = c2;
                },
                Err(e) => {
                    proof {
                        lemma_no_terminal(
                            bm,
                            tks,
                            self.tick_spacing,
                            self.fee,
                            zero_for_one,
                            init,
                            steps,
                            pre,
                        );
                        lemma_error_at_failure(
                            bm,
                            tks,
                            self.tick_spacing,
                            self.fee,
                            zero_for_one,
                            init,
                            steps,
                            pre,
                        );
                    }
                    return Err(e);
                },
            }
            fuel = fuel - 1;
        }
        if fuel == 0 && !current.amount_specified_remaining.is_zero()
            && current.sqrt_price_x_96 != limit {
            proof {
                crate::u256::lemma_u256_eq(current.sqrt_price_x_96, limit);
                lemma_error_fuel_exhausted(
                    bm,
                    tks,
                    self.tick_spacing,
                    self.fee,
                    zero_for_one,
                    init,
                    proj_state(current),
                );
            }
            return Err(SwapSimulationError::Math);
        }
        proof {
            let n: nat = (SWAP_FUEL - fuel) as nat;
            crate::u256::lemma_u256_eq(current.sqrt_price_x_96, limit);
            assert(swap_done(proj_state(current), zero_for_one));
            let w: (SwapSpecState, nat) = (proj_state(current), n);
            assert(w.1 <= SWAP_FUEL && swap_reach(
                bm,
                tks,
                self.tick_spacing,
                self.fee,
                zero_for_one,
                init,
                w.1,
            ) == Some(w.0) && swap_done(w.0, zero_for_one));
            assert(swap_terminates(
                bm,
                tks,
                self.tick_spacing,
                self.fee,
                zero_for_one,
                init,
                SWAP_FUEL as nat,
            ));
            let p = choose|p: (SwapSpecState, nat)|
                p.1 <= SWAP_FUEL && swap_reach(
                    bm,
                    tks,
                    self.tick_spacing,
                    self.fee,
                    zero_for_one,
                    init,
                    p.1,
                ) == Some(p.0) && (#[trigger] swap_done(p.0, zero_for_one));
            lemma_swap_final_unique(
                bm,
                tks,
                self.tick_spacing,
                self.fee,
                zero_for_one,
                init,
                n,
                p.1,
            );
            assert(proj_state(current) == swap_final(
                bm,
                tks,
                self.tick_spacing,
                self.fee,
                zero_for_one,
                init,
            ));
        }
        Ok(current)
    }

    /// Simulates an exact-input swap of `amount_in` of `token_in` and
    /// returns the exact output amount, without touching the pool. The
    /// result is a function of the pool state and the inputs alone: the
    /// terminal state of the spec machine.
    pub fn simulate_swap(&self, token_in: Address, amount_in: U256) -> (r: Result<
        U256,
        SwapSimulationError,
    >)
        ensures
            match r {
                Ok(out) => (amount_in.as_nat() == 0 ==> out.as_nat() == 0) && (amount_in.as_nat()
                    != 0 ==> swap_ok(*self, token_in == self.token_a, amount_in.as_nat())
                    && out.as_nat() == swap_output(
                    *self,
                    token_in == self.token_a,
                    amount_in.as_nat(),
                )),
                Err(e) => amount_in.as_nat() != 0 && !swap_ok(
                    *self,
                    token_in == self.token_a,
                    amount_in.as_nat(),
                ) && e == swap_err_of(*self, token_in == self.token_a, amount_in.as_nat()),
            },
    {
        if amount_in.is_zero() {
            return Ok(U256::zero());
        }
        let zero_for_one = token_in == self.token_a;
        match self.swap_core(zero_for_one, &amount_in) {
            Ok(cs) => Ok(cs.amount_calculated.wrapping_neg()),
            Err(e) => Err(e),
        }
    }

    /// Simulates an exact-input swap as [`Self::simulate_swap`] does, and
    /// commits the terminal sqrt price, tick and active liquidity back to
    /// the pool. A zero amount or a failure leaves the pool unchanged.
    pub fn simulate_swap_mut(&mut self, token_in: Address, amount_in: U256) -> (r: Result<
        U256,
        SwapSimulationError,
    >)
        ensures
            final(self).address == old(self).address,
            final(self).token_a == old(self).token_a,
            final(self).token_b == old(self).token_b,
            final(self).token_a_decimals == old(self).token_a_decimals,
            final(self).token_b_decimals == old(self).token_b_decimals,
            final(self).fee == old(self).fee,
            final(self).tick_spacing == old(self).tick_spacing,
            final(self).tick_bitmap@ == old(self).tick_bitmap@,
            final(self).ticks@ == old(self).ticks@,
            match r {
                Ok(out) => {
                    &&& (amount_in.as_nat() == 0 ==> out.as_nat() == 0
                        && final(self).sqrt_price == old(self).sqrt_price
                        && final(self).tick == old(self).tick
                        && final(self).liquidity == old(self).liquidity)
                    &&& (amount_in.as_nat() != 0 ==> {
                        let zfo = token_in == old(self).token_a;
                        &&& swap_ok(*old(self), zfo, amount_in.as_nat())
                        &&& out.as_nat() == swap_output(*old(self), zfo, amount_in.as_nat())
                        &&& final(self).sqrt_price.as_nat() == swap_result(
                            *old(self),
                            zfo,
                            amount_in.as_nat(),
                        ).price
                        &&& final(self).tick as int == swap_result(
                            *old(self),
                            zfo,
                            amount_in.as_nat(),
                        ).tick
                        &&& final(self).liquidity as nat == swap_result(
                            *old(self),
                            zfo,
                            amount_in.as_nat(),
                        ).liquidity
                    })
                },
                Err(e) => amount_in.as_nat() != 0 && !swap_ok(
                    *old(self),
                    token_in == old(self).token_a,
                    amount_in.as_nat(),
                ) && e == swap_err_of(
                    *old(self),
                    token_in == old(self).token_a,
                    amount_in.as_nat(),
                ) && final(self).sqrt_price == old(self).sqrt_price
                    && final(self).tick == old(self).tick
                    && final(self).liquidity == old(self).liquidity,
            },
    {
        if amount_in.is_zero() {
            return Ok(U256::zero());
        }
        let zero_for_one = token_in == self.token_a;
        match self.swap_core(zero_for_one, &amount_in) {
            Ok(cs) => {
                self.liquidity = cs.liquidity;
                self.sqrt_price = cs.sqrt_price_x_96;
                self.tick = cs.tick;
                Ok(cs.amount_calculated.wrapping_neg())
            },
            Err(e) => Err(e),
        }
    }
}

} // verus!
