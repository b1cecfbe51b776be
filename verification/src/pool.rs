//! The pool replica: identity, metadata, and mutable tick-indexed state.

use crate::intdiv::{floor_div_i32, spec_compress, trunc_div, trunc_div_i32};
use crate::u256::U256;
use std::collections::HashMap;
use vstd::prelude::*;

verus! {

/// A 160-bit account address, high 32 bits first.
#[derive(Clone, Copy, Debug, PartialEq, Eq, Structural)]
pub struct Address {
    pub hi: u32,
    pub lo: u128,
}

impl Address {
    /// The address as a 160-bit integer.
    pub open spec fn as_nat(self) -> nat {
        (self.hi as nat) * 0x100000000000000000000000000000000nat + (self.lo as nat)
    }

    pub fn zero() -> (r: Address)
        ensures
            r.hi == 0 && r.lo == 0,
    {
        Address { hi: 0, lo: 0 }
    }

    pub fn is_zero(&self) -> (r: bool)
        ensures
            r == (self.hi == 0 && self.lo == 0),
    {
        self.hi == 0 && self.lo == 0
    }
}

/// Liquidity bookkeeping for one initialized tick.
#[derive(Clone, Copy, Debug, PartialEq, Eq, Structural)]
pub struct Info {
    pub liquidity_gross: u128,
    pub liquidity_net: i128,
    pub initialized: bool,
}

impl Info {
    pub fn new(liquidity_gross: u128, liquidity_net: i128, initialized: bool) -> (r: Self)
        ensures
            r.liquidity_gross == liquidity_gross,
            r.liquidity_net == liquidity_net,
            r.initialized == initialized,
    {
        Info { liquidity_gross, liquidity_net, initialized }
    }
}

impl Default for Info {
    fn default() -> (r: Self)
        ensures
            r.liquidity_gross == 0 && r.liquidity_net == 0 && !r.initialized,
    {
        Info { liquidity_gross: 0, liquidity_net: 0, initialized: false }
    }
}

/// The pool replica.
///
/// `ticks` holds an entry exactly for the ticks some position references;
/// `tick_bitmap` marks the same ticks, one bit per `tick_spacing`-multiple.
#[derive(Clone, Debug)]
pub struct UniswapV3Pool {
    pub address: Address,
    pub token_a: Address,
    pub token_a_decimals: u8,
    pub token_b: Address,
    pub token_b_decimals: u8,
    pub liquidity: u128,
    pub sqrt_price: U256,
    pub fee: u32,
    pub tick: i32,
    pub tick_spacing: i32,
    pub tick_bitmap: HashMap<i16, U256>,
    pub ticks: HashMap<i32, Info>,
}

impl UniswapV3Pool {
    #[allow(clippy::too_many_arguments)]
    pub fn new(
        address: Address,
        token_a: Address,
        token_a_decimals: u8,
        token_b: Address,
        token_b_decimals: u8,
        fee: u32,
        liquidity: u128,
        sqrt_price: U256,
        tick: i32,
        tick_spacing: i32,
        tick_bitmap: HashMap<i16, U256>,
        ticks: HashMap<i32, Info>,
    ) -> (r: UniswapV3Pool)
        ensures
            r.address == address,
            r.token_a == token_a,
            r.token_a_decimals == token_a_decimals,
            r.token_b == token_b,
            r.token_b_decimals == token_b_decimals,
            r.fee == fee,
            r.liquidity == liquidity,
            r.sqrt_price == sqrt_price,
            r.tick == tick,
            r.tick_spacing == tick_spacing,
            r.tick_bitmap == tick_bitmap,
            r.ticks == ticks,
    {
        UniswapV3Pool {
            address,
            token_a,
            token_a_decimals,
            token_b,
            token_b_decimals,
            fee,
            liquidity,
            sqrt_price,
            tick,
            tick_spacing,
            tick_bitmap,
            ticks,
        }
    }

    /// A pool with zeroed state, as the hydration driver starts from.
    pub fn new_empty(address: Address) -> (r: UniswapV3Pool)
        ensures
            r.address == address,
            r.token_a == (Address { hi: 0, lo: 0 }),
            r.token_b == (Address { hi: 0, lo: 0 }),
            r.token_a_decimals == 0 && r.token_b_decimals == 0,
            r.fee == 0 && r.liquidity == 0 && r.tick == 0 && r.tick_spacing == 0,
            r.sqrt_price.as_nat() == 0,
            r.tick_bitmap@ == Map::<i16, U256>::empty(),
            r.ticks@ == Map::<i32, Info>::empty(),
    {
        broadcast use vstd::std_specs::hash::group_hash_axioms;

        UniswapV3Pool {
            address,
            token_a: Address::zero(),
            token_a_decimals: 0,
            token_b: Address::zero(),
            token_b_decimals: 0,
            liquidity: 0,
            sqrt_price: U256::zero(),
            fee: 0,
            tick: 0,
            tick_spacing: 0,
            tick_bitmap: HashMap::new(),
            ticks: HashMap::new(),
        }
    }

    pub fn address(&self) -> (r: Address)
        ensures
            r == self.address,
    {
        self.address
    }

    pub fn fee(&self) -> (r: u32)
        ensures
            r == self.fee,
    {
        self.fee
    }

    /// Both token addresses have been filled in by hydration.
    pub fn data_is_populated(&self) -> (r: bool)
        ensures
            r == !((self.token_a.hi == 0 && self.token_a.lo == 0) || (self.token_b.hi == 0
                && self.token_b.lo == 0)),
    {
        !(self.token_a.is_zero() || self.token_b.is_zero())
    }

    pub fn tokens(&self) -> (r: Vec<Address>)
        ensures
            r@.len() == 2,
            r@[0] == self.token_a,
            r@[1] == self.token_b,
    {
        let mut v: Vec<Address> = Vec::new();
        v.push(self.token_a);
        v.push(self.token_b);
        v
    }

    /// The counterparty token of a swap whose input is `token_in`.
    pub fn get_token_out(&self, token_in: Address) -> (r: Address)
        ensures
            r == (if self.token_a == token_in {
                self.token_b
            } else {
                self.token_a
            }),
    {
        if self.token_a == token_in {
            self.token_b
        } else {
            self.token_a
        }
    }

    /// The tick compressed onto the spacing grid, rounded toward negative
    /// infinity.
    pub fn calculate_compressed(&self, tick: i32) -> (r: i32)
        requires
            self.tick_spacing != 0,
            !(tick == i32::MIN && self.tick_spacing == -1),
        ensures
            r == spec_compress(tick as int, self.tick_spacing as int),
    {
        let s = self.tick_spacing;
        let q = trunc_div_i32(tick, s);
        proof {
            assert((q as int) * (s as int) <= 0x4000000000000000int && (q as int) * (s as int)
                >= -0x4000000000000000int) by (nonlinear_arith)
                requires
                    -0x80000000 <= q <= 0x7fffffff,
                    -0x80000000 <= s <= 0x7fffffff,
            ;
        }
        let prod: i64 = (q as i64) * (s as i64);
        if tick < 0 && prod != tick as i64 {
            proof {
                lemma_no_min_quotient(tick as int, s as int);
            }
            q - 1
        } else {
            q
        }
    }

    /// The block windows the hydration driver scans for historical logs:
    /// fixed strides from the creation block up to and including the
    /// current block, each window closed at its start plus the stride.
    pub fn hydration_windows(creation_block: u64, current_block: u64) -> (r: Vec<(u64, u64)>)
        requires
            current_block <= u64::MAX - 100000,
        ensures
            r@.len() == (if creation_block > current_block {
                0int
            } else {
                (current_block - creation_block) / 100000 + 1
            }),
            forall|i: int|
                0 <= i < r@.len() ==> (#[trigger] r@[i]).0 == creation_block + i * 100000
                    && r@[i].1 == creation_block + i * 100000 + 100000,
    {
        let mut v: Vec<(u64, u64)> = Vec::new();
        let mut from: u64 = creation_block;
        while from <= current_block
            invariant
                current_block <= u64::MAX - 100000,
                creation_block <= from,
                v@.len() == (from - creation_block) / 100000,
                (from - creation_block) % 100000 == 0,
                from <= current_block + 100000 || from == creation_block,
                forall|i: int|
                    0 <= i < v@.len() ==> (#[trigger] v@[i]).0 == creation_block + i * 100000
                        && v@[i].1 == creation_block + i * 100000 + 100000,
            decreases current_block + 100000 - from,
        {
            let to = from + 100000;
            v.push((from, to));
            proof {
                let k = ((from - creation_block) / 100000) as int;
                vstd::arithmetic::div_mod::lemma_fundamental_div_mod(
                    from - creation_block,
                    100000,
                );
                assert(from - creation_block == k * 100000);
                vstd::arithmetic::div_mod::lemma_fundamental_div_mod_converse(
                    from + 100000 - creation_block,
                    100000,
                    k + 1,
                    0,
                );
            }
            from = from + 100000;
        }
        proof {
            if creation_block <= current_block {
                let k = ((from - creation_block) / 100000) as int;
                vstd::arithmetic::div_mod::lemma_fundamental_div_mod(
                    from - creation_block,
                    100000,
                );
                vstd::arithmetic::div_mod::lemma_fundamental_div_mod_converse(
                    current_block - creation_block,
                    100000,
                    k - 1,
                    current_block - (from - 100000),
                );
            }
        }
        v
    }

    /// Bitmap coordinates of a compressed tick: word index and bit index.
    pub fn calculate_word_pos_bit_pos(&self, compressed: i32) -> (r: (i16, u8))
        requires
            -8388608 <= compressed < 8388608,
        ensures
            r.0 == compressed as int / 256,
            r.1 == compressed as int % 256,
    {
        let word = floor_div_i32(compressed, 256);
        let bit = compressed - word * 256;
        proof {
            vstd::arithmetic::div_mod::lemma_fundamental_div_mod(compressed as int, 256);
            vstd::arithmetic::div_mod::lemma_mod_bound(compressed as int, 256);
        }
        (word as i16, bit as u8)
    }
}

/// The full on-chain per-tick record, as a point read returns it; the
/// replica's own bookkeeping keeps only the [`Info`] part of it.
pub struct Tick {
    pub liquidity_gross: u128,
    pub liquidity_net: i128,
    pub fee_growth_outside_0_x_128: U256,
    pub fee_growth_outside_1_x_128: U256,
    pub tick_cumulative_outside: U256,
    pub seconds_per_liquidity_outside_x_128: U256,
    pub seconds_outside: u32,
    pub initialized: bool,
}

/// When the truncating quotient misses the dividend, it is not the extreme
/// 32-bit value, so the floor adjustment cannot underflow.
proof fn lemma_no_min_quotient(a: int, b: int)
    requires
        b != 0,
        -0x80000000 <= a < 0,
        -0x80000000 <= b <= 0x7fffffff,
        !(a == -0x80000000 && b == -1),
        trunc_div(a, b) * b != a,
    ensures
        trunc_div(a, b) > -0x80000000,
{
    let na = vstd::math::abs(a) as int;
    let nb = vstd::math::abs(b) as int;
    let q = na / nb;
    vstd::arithmetic::div_mod::lemma_fundamental_div_mod(na, nb);
    vstd::arithmetic::div_mod::lemma_mod_bound(na, nb);
    if b < 0 {
        // Quotient is nonnegative, far from the minimum.
        assert(q >= 0) by (nonlinear_arith)
            requires
                q == na / nb,
                na >= 0,
                nb >= 1,
        ;
    } else {
        if trunc_div(a, b) == -0x80000000 {
            assert(q == 0x80000000int);
            assert(q * nb <= na) by (nonlinear_arith)
                requires
                    na == q * nb + na % nb,
                    na % nb >= 0,
            ;
            assert(nb == 1 && na == 0x80000000int && na % nb == 0) by (nonlinear_arith)
                requires
                    q == 0x80000000int,
                    q * nb <= na,
                    na <= 0x80000000int,
                    nb >= 1,
                    na == q * nb + na % nb,
                    0 <= na % nb < nb,
            ;
            assert(trunc_div(a, b) == -q);
            assert(trunc_div(a, b) * b == a) by (nonlinear_arith)
                requires
                    trunc_div(a, b) == -0x80000000int,
                    b == 1,
                    a == -0x80000000int,
            ;
            assert(false);
        }
    }
}

} // verus!
