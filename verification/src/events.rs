//! Event logs: decoding mint/burn/swap payloads and applying them to the
//! replica.
//!
//! A topic is a 256-bit word; the data field is raw bytes in 32-byte
//! big-endian words, as the contract's event encoder lays them out.

use crate::errors::EventLogError;
use crate::mutator::spec_modify_position;
use crate::pool::{Address, UniswapV3Pool};
use crate::u256::U256;
use vstd::prelude::*;

verus! {

/// A decoded chain log: indexed topics and the data payload.
pub struct EventLog {
    pub topics: Vec<U256>,
    pub data: Vec<u8>,
    pub block_number: Option<u64>,
}

/// The value of a big-endian byte string.
pub open spec fn be_val(s: Seq<u8>) -> nat
    decreases s.len(),
{
    if s.len() == 0 {
        0
    } else {
        be_val(s.drop_last()) * 256 + (s.last() as nat)
    }
}

/// 256 to the `n`.
pub open spec fn pow256(n: nat) -> nat
    decreases n,
{
    if n == 0 {
        1
    } else {
        256 * pow256((n - 1) as nat)
    }
}

/// A big-endian value is bounded by 256 to the byte count.
pub proof fn lemma_be_val_bound(s: Seq<u8>)
    ensures
        be_val(s) < pow256(s.len() as nat),
    decreases s.len(),
{
    if s.len() > 0 {
        lemma_be_val_bound(s.drop_last());
        assert(be_val(s.drop_last()) * 256 + 256 <= 256 * pow256((s.len() - 1) as nat))
            by (nonlinear_arith)
            requires
                be_val(s.drop_last()) + 1 <= pow256((s.len() - 1) as nat),
        ;
    }
}

/// Powers of 256 grow with the exponent.
proof fn lemma_pow256_increases(a: nat, b: nat)
    requires
        a <= b,
    ensures
        pow256(a) <= pow256(b),
    decreases b,
{
    if a < b {
        lemma_pow256_increases(a, (b - 1) as nat);
        assert(pow256((b - 1) as nat) <= 256 * pow256((b - 1) as nat)) by (nonlinear_arith)
            requires
                pow256((b - 1) as nat) >= 0,
        ;
    }
}

/// The 32-byte word at byte offset `off` of `data`, as limbs.
pub open spec fn word_at(data: Seq<u8>, off: int) -> U256 {
    U256 {
        hi: be_val(data.subrange(off, off + 16)) as u128,
        lo: be_val(data.subrange(off + 16, off + 32)) as u128,
    }
}

/// The low 160 bits of a word, read as an address.
pub open spec fn addr_of_word(v: U256) -> Address {
    Address { hi: (v.hi % 0x100000000) as u32, lo: v.lo }
}

/// The 16-byte big-endian value at byte offset `off`.
fn read16(data: &Vec<u8>, off: usize) -> (r: u128)
    requires
        off + 16 <= data@.len(),
    ensures
        r == be_val(data@.subrange(off as int, off as int + 16)),
{
    broadcast use vstd::std_specs::vec::group_vec_axioms;

    proof {
        assert(vstd::std_specs::vec::spec_vec_len(data) == data@.len());
    }
    let mut acc: u128 = 0;
    let mut i: usize = 0;
    while i < 16
        invariant
            i <= 16,
            off + 16 <= data@.len(),
            acc == be_val(data@.subrange(off as int, off as int + i)),
        decreases 16 - i,
    {
        proof {
            assert(vstd::std_specs::vec::spec_vec_len(data) == data@.len());
            lemma_be_val_bound(data@.subrange(off as int, off as int + i));
            assert(pow256(16) == 0x100000000000000000000000000000000nat) by {
                reveal_with_fuel(pow256, 17);
            }
            assert(acc * 256 + 256 <= 256 * pow256(i as nat)) by (nonlinear_arith)
                requires
                    acc + 1 <= pow256(i as nat),
            ;
            lemma_pow256_increases((i + 1) as nat, 16);
        }
        let b = data[off + i];
        acc = acc * 256 + (b as u128);
        proof {
            assert(data@.subrange(off as int, off as int + i + 1).drop_last() == data@.subrange(
                off as int,
                off as int + i,
            ));
            assert(data@.subrange(off as int, off as int + i + 1).last() == b);
        }
        i = i + 1;
    }
    proof {
        assert(data@.subrange(off as int, off as int + 16) == data@.subrange(
            off as int,
            off as int + i,
        ));
    }
    acc
}

/// The 32-byte word at byte offset `off`.
fn read_word(data: &Vec<u8>, off: usize) -> (r: U256)
    requires
        off + 32 <= data@.len(),
    ensures
        r == word_at(data@, off as int),
{
    broadcast use vstd::std_specs::vec::group_vec_axioms;

    proof {
        assert(vstd::std_specs::vec::spec_vec_len(data) == data@.len());
    }
    let hi = read16(data, off);
    let lo = read16(data, off + 16);
    U256 { hi, lo }
}

/// The swap event's signature topic as a value.
pub open spec fn spec_swap_sig() -> U256 {
    U256 { hi: 0xc42079f94a6350d7e6235f2917492499, lo: 0x28cc2ac818eb64fed8004e115fbcca67 }
}

/// The burn event's signature topic as a value.
pub open spec fn spec_burn_sig() -> U256 {
    U256 { hi: 0x0c396cd989a39f4459b5fa1aed6a9a8d, lo: 0xcdbc45908acfd67e028cd568da98982c }
}

/// The mint event's signature topic as a value.
pub open spec fn spec_mint_sig() -> U256 {
    U256 { hi: 0x7a53080ba414158be7ec69b987b5fb7d, lo: 0x07dee101fe85488f0853ae16239d0bde }
}

/// The pair-creation event's signature topic as a value.
pub open spec fn spec_pair_created_sig() -> U256 {
    U256 { hi: 0x0d3648bd0f6ba80134a33ba9275ac585, lo: 0xd9d315f0ad8355cddefde31afa28d0e9 }
}

/// The signature topic of the swap event.
pub fn swap_event_signature() -> (r: U256)
    ensures
        r == spec_swap_sig(),
{
    U256 { hi: 0xc42079f94a6350d7e6235f2917492499, lo: 0x28cc2ac818eb64fed8004e115fbcca67 }
}

/// The signature topic of the burn event.
pub fn burn_event_signature() -> (r: U256)
    ensures
        r == spec_burn_sig(),
{
    U256 { hi: 0x0c396cd989a39f4459b5fa1aed6a9a8d, lo: 0xcdbc45908acfd67e028cd568da98982c }
}

/// The signature topic of the mint event.
pub fn mint_event_signature() -> (r: U256)
    ensures
        r == spec_mint_sig(),
{
    U256 { hi: 0x7a53080ba414158be7ec69b987b5fb7d, lo: 0x07dee101fe85488f0853ae16239d0bde }
}

/// The signature topic of the pair-creation event.
pub fn pair_created_event_signature() -> (r: U256)
    ensures
        r == spec_pair_created_sig(),
{
    U256 { hi: 0x0d3648bd0f6ba80134a33ba9275ac585, lo: 0xd9d315f0ad8355cddefde31afa28d0e9 }
}

/// A topic read as a signed 256-bit value that must fit a 32-bit tick.
pub open spec fn spec_topic_tick(t: U256) -> Option<i32> {
    if -0x80000000 <= t.as_i256() <= 0x7fffffff {
        Some(t.as_i256() as i32)
    } else {
        None
    }
}

/// The decoded endpoints and amount of a mint or burn log. The endpoints
/// ride in topics 2 and 3 as sign-extended 24-bit values; the amount is the
/// 128-bit word at `amount_off`; the data must hold the event's whole
/// fixed layout of `full_len` bytes. `None` when the log is malformed: too
/// few topics, short data, an endpoint outside 32 bits, or amount padding
/// that is not zero.
pub open spec fn spec_decode_position_log(
    topics: Seq<U256>,
    data: Seq<u8>,
    amount_off: int,
    full_len: int,
) -> Option<(i32, i32, u128)> {
    if topics.len() < 4 || data.len() < full_len {
        None
    } else {
        match (spec_topic_tick(topics[2]), spec_topic_tick(topics[3])) {
            (Some(l), Some(u)) => {
                let w = word_at(data, amount_off);
                if w.hi != 0 {
                    None
                } else {
                    Some((l, u, w.lo))
                }
            },
            _ => None,
        }
    }
}

/// The decoded payload of a burn log: endpoints and burned amount,
/// followed by two unread token-amount words.
pub open spec fn spec_decode_burn(topics: Seq<U256>, data: Seq<u8>) -> Option<(i32, i32, u128)> {
    spec_decode_position_log(topics, data, 0, 96)
}

/// The decoded payload of a mint log: endpoints and minted amount (the
/// sender word is skipped, two token-amount words follow unread).
pub open spec fn spec_decode_mint(topics: Seq<U256>, data: Seq<u8>) -> Option<(i32, i32, u128)> {
    spec_decode_position_log(topics, data, 32, 128)
}

/// The decoded payload of a swap log: both raw signed amounts, the sqrt
/// price word, the active liquidity, and the tick.
pub open spec fn spec_decode_swap(topics: Seq<U256>, data: Seq<u8>) -> Option<
    (U256, U256, U256, u128, i32),
> {
    if data.len() < 160 {
        None
    } else {
        let liq = word_at(data, 96);
        match spec_topic_tick(word_at(data, 128)) {
            Some(tick) => {
                if liq.hi != 0 {
                    None
                } else {
                    Some((word_at(data, 0), word_at(data, 32), word_at(data, 64), liq.lo, tick))
                }
            },
            None => None,
        }
    }
}

/// A topic as a signed value that fits a 32-bit tick.
fn topic_tick(t: &U256) -> (r: Result<i32, EventLogError>)
    ensures
        match r {
            Ok(v) => spec_topic_tick(*t) == Some(v),
            Err(e) => spec_topic_tick(*t) is None && e == EventLogError::AbiDecodeFailed,
        },
{
    if t.hi == 0 && t.lo <= 0x7fffffff {
        Ok(t.lo as i32)
    } else if t.hi == u128::MAX && t.lo >= 0xffffffffffffffffffffffffffffffff_u128 - 0x7fffffff {
        let m: u128 = (u128::MAX - t.lo) + 1;
        proof {
            assert((u128::MAX as nat) * crate::u256::limb_base() == crate::u256::u256_base()
                - crate::u256::limb_base());
            assert(t.as_i256() == t.lo - crate::u256::limb_base());
        }
        if m == 0x80000000 {
            Ok(i32::MIN)
        } else {
            Ok(-(m as i32))
        }
    } else {
        proof {
            lemma_topic_tick_range(*t);
        }
        Err(EventLogError::AbiDecodeFailed)
    }
}

/// Outside the two recognized limb patterns the signed value cannot fit 32
/// bits.
proof fn lemma_topic_tick_range(t: U256)
    requires
        !(t.hi == 0 && t.lo <= 0x7fffffff),
        !(t.hi == u128::MAX && t.lo >= 0xffffffffffffffffffffffffffffffff_u128 - 0x7fffffff),
    ensures
        !(-0x80000000 <= t.as_i256() <= 0x7fffffff),
{
    if t.hi < 0x80000000000000000000000000000000 {
        if t.hi == 0 {
        } else {
            assert(t.as_nat() >= crate::u256::limb_base()) by (nonlinear_arith)
                requires
                    t.hi >= 1,
                    t.as_nat() == t.hi * crate::u256::limb_base() + t.lo,
            ;
        }
    } else {
        if t.hi == u128::MAX {
        } else {
            assert((t.hi + 1) * crate::u256::limb_base() <= (u128::MAX as nat)
                * crate::u256::limb_base()) by (nonlinear_arith)
                requires
                    t.hi + 1 <= u128::MAX,
            ;
            assert(t.as_nat() + crate::u256::limb_base() <= crate::u256::u256_base()
                - crate::u256::limb_base() + t.lo + crate::u256::limb_base()) by (nonlinear_arith)
                requires
                    t.as_nat() == t.hi * crate::u256::limb_base() + t.lo,
                    (t.hi + 1) * crate::u256::limb_base() <= (u128::MAX as nat)
                        * crate::u256::limb_base(),
                    (u128::MAX as nat) * crate::u256::limb_base() == crate::u256::u256_base()
                        - crate::u256::limb_base(),
            ;
        }
    }
}

impl UniswapV3Pool {
    /// The event signatures whose logs drive this pool's state.
    pub fn sync_on_event_signatures(&self) -> (r: Vec<U256>)
        ensures
            r@.len() == 3,
            r@[0] == spec_swap_sig(),
            r@[1] == spec_mint_sig(),
            r@[2] == spec_burn_sig(),
    {
        let mut v: Vec<U256> = Vec::new();
        v.push(swap_event_signature());
        v.push(mint_event_signature());
        v.push(burn_event_signature());
        v
    }

    /// Decodes a swap log's payload.
    pub fn decode_swap_log(&self, swap_log: &EventLog) -> (r: Result<
        (U256, U256, U256, u128, i32),
        EventLogError,
    >)
        ensures
            match r {
                Ok(v) => spec_decode_swap(swap_log.topics@, swap_log.data@) == Some(v),
                Err(e) => spec_decode_swap(swap_log.topics@, swap_log.data@) is None && e
                    == EventLogError::AbiDecodeFailed,
            },
    {
        if swap_log.data.len() < 160 {
            return Err(EventLogError::AbiDecodeFailed);
        }
        let amount_0 = read_word(&swap_log.data, 0);
        let amount_1 = read_word(&swap_log.data, 32);
        let sqrt_price = read_word(&swap_log.data, 64);
        let liq_word = read_word(&swap_log.data, 96);
        let tick_word = read_word(&swap_log.data, 128);
        let tick = match topic_tick(&tick_word) {
            Ok(t) => t,
            Err(e) => {
                return Err(e);
            },
        };
        if liq_word.hi != 0 {
            return Err(EventLogError::AbiDecodeFailed);
        }
        Ok((amount_0, amount_1, sqrt_price, liq_word.lo, tick))
    }

    /// Decodes a burn log's payload.
    pub fn decode_burn_log(&self, burn_log: &EventLog) -> (r: Result<
        (i32, i32, u128),
        EventLogError,
    >)
        ensures
            match r {
                Ok(v) => spec_decode_burn(burn_log.topics@, burn_log.data@) == Some(v),
                Err(e) => spec_decode_burn(burn_log.topics@, burn_log.data@) is None && e
                    == EventLogError::AbiDecodeFailed,
            },
    {
        self.decode_position_log(burn_log, 0, 96)
    }

    /// Decodes a mint log's payload.
    pub fn decode_mint_log(&self, mint_log: &EventLog) -> (r: Result<
        (i32, i32, u128),
        EventLogError,
    >)
        ensures
            match r {
                Ok(v) => spec_decode_mint(mint_log.topics@, mint_log.data@) == Some(v),
                Err(e) => spec_decode_mint(mint_log.topics@, mint_log.data@) is None && e
                    == EventLogError::AbiDecodeFailed,
            },
    {
        self.decode_position_log(mint_log, 32, 128)
    }

    /// Shared decoding of the two position-changing logs.
    fn decode_position_log(&self, log: &EventLog, amount_off: usize, full_len: usize) -> (r:
        Result<(i32, i32, u128), EventLogError>)
        requires
            amount_off + 32 <= full_len,
        ensures
            match r {
                Ok(v) => spec_decode_position_log(
                    log.topics@,
                    log.data@,
                    amount_off as int,
                    full_len as int,
                ) == Some(v),
                Err(e) => spec_decode_position_log(
                    log.topics@,
                    log.data@,
                    amount_off as int,
                    full_len as int,
                ) is None && e == EventLogError::AbiDecodeFailed,
            },
    {
        if log.topics.len() < 4 || log.data.len() < full_len {
            return Err(EventLogError::AbiDecodeFailed);
        }
        let tick_lower = match topic_tick(&log.topics[2]) {
            Ok(t) => t,
            Err(e) => {
                return Err(e);
            },
        };
        let tick_upper = match topic_tick(&log.topics[3]) {
            Ok(t) => t,
            Err(e) => {
                return Err(e);
            },
        };
        let w = read_word(&log.data, amount_off);
        if w.hi != 0 {
            return Err(EventLogError::AbiDecodeFailed);
        }
        Ok((tick_lower, tick_upper, w.lo))
    }

    /// Applies a mint log: adds the minted amount over its tick range. An
    /// amount that leaves the signed delta range is rejected.
    pub fn sync_from_mint_log(&mut self, log: &EventLog) -> (r: Result<(), EventLogError>)
        ensures
            sync_fields_frame(*old(self), *final(self)),
            match r {
                Ok(_) => spec_decode_mint(log.topics@, log.data@) matches Some(d)
                    && spec_mint_delta(d.2) matches Some(delta) && spec_apply_position(
                    *old(self),
                    d.0,
                    d.1,
                    delta,
                ) == Some((final(self).ticks@, final(self).tick_bitmap@, final(self).liquidity)),
                Err(e) => sync_state_frame(*old(self), *final(self)) && match spec_decode_mint(
                    log.topics@,
                    log.data@,
                ) {
                    None => e == EventLogError::AbiDecodeFailed,
                    Some(d) => (spec_mint_delta(d.2) is None || (spec_mint_delta(d.2)
                        matches Some(delta) && spec_apply_position(*old(self), d.0, d.1, delta)
                        is None)) && e == EventLogError::Arithmetic,
                },
            },
            final(self).sqrt_price == old(self).sqrt_price,
            final(self).tick == old(self).tick,
    {
        let (tick_lower, tick_upper, amount) = match self.decode_mint_log(log) {
            Ok(d) => d,
            Err(e) => {
                return Err(e);
            },
        };
        if amount >= 0x80000000000000000000000000000000u128 {
            return Err(EventLogError::Arithmetic);
        }
        self.apply_position(tick_lower, tick_upper, amount as i128)
    }

    /// Applies a burn log: removes the burned amount over its tick range.
    pub fn sync_from_burn_log(&mut self, log: &EventLog) -> (r: Result<(), EventLogError>)
        ensures
            sync_fields_frame(*old(self), *final(self)),
            match r {
                Ok(_) => spec_decode_burn(log.topics@, log.data@) matches Some(d)
                    && spec_burn_delta(d.2) matches Some(delta) && spec_apply_position(
                    *old(self),
                    d.0,
                    d.1,
                    delta,
                ) == Some((final(self).ticks@, final(self).tick_bitmap@, final(self).liquidity)),
                Err(e) => sync_state_frame(*old(self), *final(self)) && match spec_decode_burn(
                    log.topics@,
                    log.data@,
                ) {
                    None => e == EventLogError::AbiDecodeFailed,
                    Some(d) => (spec_burn_delta(d.2) is None || (spec_burn_delta(d.2)
                        matches Some(delta) && spec_apply_position(*old(self), d.0, d.1, delta)
                        is None)) && e == EventLogError::Arithmetic,
                },
            },
            final(self).sqrt_price == old(self).sqrt_price,
            final(self).tick == old(self).tick,
    {
        let (tick_lower, tick_upper, amount) = match self.decode_burn_log(log) {
            Ok(d) => d,
            Err(e) => {
                return Err(e);
            },
        };
        if amount == 0x80000000000000000000000000000000u128 {
            return Err(EventLogError::Arithmetic);
        }
        let wrapped = amount_as_i128(amount);
        let delta: i128 = if wrapped == i128::MIN {
            proof {
                assert(false);
            }
            return Err(EventLogError::Arithmetic);
        } else {
            -wrapped
        };
        self.apply_position(tick_lower, tick_upper, delta)
    }

    /// Applies a swap log: overwrites price, liquidity and tick from the
    /// payload.
    pub fn sync_from_swap_log(&mut self, log: &EventLog) -> (r: Result<(), EventLogError>)
        ensures
            sync_fields_frame(*old(self), *final(self)),
            final(self).ticks@ == old(self).ticks@,
            final(self).tick_bitmap@ == old(self).tick_bitmap@,
            match r {
                Ok(_) => spec_decode_swap(log.topics@, log.data@) matches Some(d)
                    && final(self).sqrt_price == d.2 && final(self).liquidity == d.3
                    && final(self).tick == d.4,
                Err(e) => sync_state_frame(*old(self), *final(self)) && spec_decode_swap(
                    log.topics@,
                    log.data@,
                ) is None && e == EventLogError::AbiDecodeFailed,
            },
    {
        let (_, _, sqrt_price, liquidity, tick) = match self.decode_swap_log(log) {
            Ok(d) => d,
            Err(e) => {
                return Err(e);
            },
        };
        self.sqrt_price = sqrt_price;
        self.liquidity = liquidity;
        self.tick = tick;
        Ok(())
    }

    /// Dispatches a log on its signature topic: a burn, mint or swap log
    /// has exactly its handler's effect; any other first topic, or none,
    /// is an invalid signature and leaves the pool untouched.
    pub fn sync_from_log(&mut self, log: &EventLog) -> (r: Result<(), EventLogError>)
        ensures
            sync_fields_frame(*old(self), *final(self)),
            match r {
                Ok(_) => log.topics@.len() > 0 && ({
                    let t0 = log.topics@[0];
                    if t0 == spec_burn_sig() {
                        &&& spec_decode_burn(log.topics@, log.data@) matches Some(d)
                            && spec_burn_delta(d.2) matches Some(delta) && spec_apply_position(
                            *old(self),
                            d.0,
                            d.1,
                            delta,
                        ) == Some(
                            (final(self).ticks@, final(self).tick_bitmap@, final(self).liquidity),
                        )
                        &&& final(self).sqrt_price == old(self).sqrt_price
                        &&& final(self).tick == old(self).tick
                    } else if t0 == spec_mint_sig() {
                        &&& spec_decode_mint(log.topics@, log.data@) matches Some(d)
                            && spec_mint_delta(d.2) matches Some(delta) && spec_apply_position(
                            *old(self),
                            d.0,
                            d.1,
                            delta,
                        ) == Some(
                            (final(self).ticks@, final(self).tick_bitmap@, final(self).liquidity),
                        )
                        &&& final(self).sqrt_price == old(self).sqrt_price
                        &&& final(self).tick == old(self).tick
                    } else if t0 == spec_swap_sig() {
                        &&& spec_decode_swap(log.topics@, log.data@) matches Some(d)
                            && final(self).sqrt_price == d.2 && final(self).liquidity == d.3
                            && final(self).tick == d.4
                        &&& final(self).ticks@ == old(self).ticks@
                        &&& final(self).tick_bitmap@ == old(self).tick_bitmap@
                    } else {
                        false
                    }
                }),
                Err(e) => sync_state_frame(*old(self), *final(self)) && (if log.topics@.len()
                    == 0 {
                    e == EventLogError::InvalidEventSignature
                } else {
                    let t0 = log.topics@[0];
                    if t0 == spec_burn_sig() {
                        match spec_decode_burn(log.topics@, log.data@) {
                            None => e == EventLogError::AbiDecodeFailed,
                            Some(d) => (spec_burn_delta(d.2) is None || (spec_burn_delta(d.2)
                                matches Some(delta) && spec_apply_position(
                                *old(self),
                                d.0,
                                d.1,
                                delta,
                            ) is None)) && e == EventLogError::Arithmetic,
                        }
                    } else if t0 == spec_mint_sig() {
                        match spec_decode_mint(log.topics@, log.data@) {
                            None => e == EventLogError::AbiDecodeFailed,
                            Some(d) => (spec_mint_delta(d.2) is None || (spec_mint_delta(d.2)
                                matches Some(delta) && spec_apply_position(
                                *old(self),
                                d.0,
                                d.1,
                                delta,
                            ) is None)) && e == EventLogError::Arithmetic,
                        }
                    } else if t0 == spec_swap_sig() {
                        spec_decode_swap(log.topics@, log.data@) is None && e
                            == EventLogError::AbiDecodeFailed
                    } else {
                        e == EventLogError::InvalidEventSignature
                    }
                }),
            },
    {
        if log.topics.len() == 0 {
            return Err(EventLogError::InvalidEventSignature);
        }
        let event_signature = log.topics[0];
        if event_signature == burn_event_signature() {
            self.sync_from_burn_log(log)
        } else if event_signature == mint_event_signature() {
            self.sync_from_mint_log(log)
        } else if event_signature == swap_event_signature() {
            self.sync_from_swap_log(log)
        } else {
            Err(EventLogError::InvalidEventSignature)
        }
    }

    /// Shared tail of the mint and burn paths: guard the spacing corner
    /// cases the flip arithmetic cannot represent, then modify the
    /// position.
    fn apply_position(&mut self, tick_lower: i32, tick_upper: i32, delta: i128) -> (r: Result<
        (),
        EventLogError,
    >)
        ensures
            sync_fields_frame(*old(self), *final(self)),
            final(self).sqrt_price == old(self).sqrt_price,
            final(self).tick == old(self).tick,
            match r {
                Ok(_) => spec_apply_position(*old(self), tick_lower, tick_upper, delta as int)
                    == Some((final(self).ticks@, final(self).tick_bitmap@, final(self).liquidity)),
                Err(e) => sync_state_frame(*old(self), *final(self)) && spec_apply_position(
                    *old(self),
                    tick_lower,
                    tick_upper,
                    delta as int,
                ) is None && e == EventLogError::Arithmetic,
            },
    {
        if delta == 0 {
            return Ok(());
        }
        if self.tick_spacing == 0 || (self.tick_spacing == -1 && (tick_lower == i32::MIN
            || tick_upper == i32::MIN)) {
            return Err(EventLogError::Arithmetic);
        }
        match self.modify_position(tick_lower, tick_upper, delta) {
            Ok(_) => Ok(()),
            Err(_) => Err(EventLogError::Arithmetic),
        }
    }

    /// An empty pool built from a pair-creation log: identity and fee from
    /// the payload, all state zeroed.
    pub fn new_empty_pool_from_log(log: &EventLog) -> (r: Result<UniswapV3Pool, EventLogError>)
        ensures
            match r {
                Ok(p) => {
                    &&& log.topics@.len() >= 3
                    &&& log.topics@[0] == spec_pair_created_sig()
                    &&& log.data@.len() >= 64
                    &&& word_at(log.data@, 0).hi == 0 && word_at(log.data@, 0).lo < 0x100000000
                    &&& p.fee == word_at(log.data@, 0).lo as u32
                    &&& p.address == addr_of_word(word_at(log.data@, 32))
                    &&& p.token_a == addr_of_word(log.topics@[1])
                    &&& p.token_b == addr_of_word(log.topics@[2])
                    &&& p.token_a_decimals == 0 && p.token_b_decimals == 0
                    &&& p.liquidity == 0 && p.tick == 0 && p.tick_spacing == 0
                    &&& p.sqrt_price.as_nat() == 0
                    &&& p.tick_bitmap@ == Map::<i16, U256>::empty()
                    &&& p.ticks@ == Map::<i32, crate::pool::Info>::empty()
                },
                Err(e) => (log.topics@.len() < 3 || log.topics@[0] != spec_pair_created_sig()
                    || log.data@.len() < 64 || word_at(log.data@, 0).hi != 0 || word_at(
                    log.data@,
                    0,
                ).lo >= 0x100000000) && e == (if log.topics@.len() < 3 || log.topics@[0]
                    != spec_pair_created_sig() {
                    EventLogError::InvalidEventSignature
                } else {
                    EventLogError::AbiDecodeFailed
                }),
            },
    {
        broadcast use vstd::std_specs::hash::group_hash_axioms;

        if log.topics.len() < 3 {
            return Err(EventLogError::InvalidEventSignature);
        }
        let event_signature = log.topics[0];
        if !(event_signature == pair_created_event_signature()) {
            return Err(EventLogError::InvalidEventSignature);
        }
        if log.data.len() < 64 {
            return Err(EventLogError::AbiDecodeFailed);
        }
        let fee_word = read_word(&log.data, 0);
        if fee_word.hi != 0 || fee_word.lo >= 0x100000000 {
            return Err(EventLogError::AbiDecodeFailed);
        }
        let addr_word = read_word(&log.data, 32);
        let token_a = addr_from_u256(&log.topics[1]);
        let token_b = addr_from_u256(&log.topics[2]);
        Ok(
            UniswapV3Pool {
                address: addr_from_u256(&addr_word),
                token_a,
                token_b,
                token_a_decimals: 0,
                token_b_decimals: 0,
                fee: fee_word.lo as u32,
                liquidity: 0,
                sqrt_price: U256::zero(),
                tick_spacing: 0,
                tick: 0,
                tick_bitmap: std::collections::HashMap::new(),
                ticks: std::collections::HashMap::new(),
            },
        )
    }
}

/// The low 160 bits of a word as an address.
fn addr_from_u256(v: &U256) -> (r: Address)
    ensures
        r == addr_of_word(*v),
{
    Address { hi: (v.hi % 0x100000000) as u32, lo: v.lo }
}

/// The fields a log application never touches.
pub open spec fn sync_fields_frame(a: UniswapV3Pool, b: UniswapV3Pool) -> bool {
    &&& b.address == a.address
    &&& b.token_a == a.token_a
    &&& b.token_b == a.token_b
    &&& b.token_a_decimals == a.token_a_decimals
    &&& b.token_b_decimals == a.token_b_decimals
    &&& b.fee == a.fee
    &&& b.tick_spacing == a.tick_spacing
}

/// A failed application leaves the whole mutable state alone.
pub open spec fn sync_state_frame(a: UniswapV3Pool, b: UniswapV3Pool) -> bool {
    &&& b.ticks@ == a.ticks@
    &&& b.tick_bitmap@ == a.tick_bitmap@
    &&& b.liquidity == a.liquidity
    &&& b.sqrt_price == a.sqrt_price
    &&& b.tick == a.tick
}

/// The mint delta: the amount itself, undefined where it leaves the
/// signed range a position delta lives in.
pub open spec fn spec_mint_delta(amount: u128) -> Option<int> {
    if amount >= 0x80000000000000000000000000000000 {
        None
    } else {
        Some(amount as int)
    }
}

/// A 128-bit amount reinterpreted as a signed value, wrapping.
pub open spec fn wrap_i128(amount: u128) -> int {
    if amount < 0x80000000000000000000000000000000 {
        amount as int
    } else {
        amount - 0x100000000000000000000000000000000
    }
}

/// The burn delta: the negated wrapped amount, undefined where negation
/// leaves the signed range.
pub open spec fn spec_burn_delta(amount: u128) -> Option<int> {
    if amount == 0x80000000000000000000000000000000 {
        None
    } else {
        Some(-wrap_i128(amount))
    }
}

/// The position update a decoded event asks for, guarded by the spacing
/// values whose bit flip the arithmetic cannot represent.
pub open spec fn spec_apply_position(pool: UniswapV3Pool, l: i32, u: i32, delta: int) -> Option<
    (Map<i32, crate::pool::Info>, Map<i16, U256>, u128),
> {
    if delta == 0 {
        Some((pool.ticks@, pool.tick_bitmap@, pool.liquidity))
    } else if pool.tick_spacing == 0 || (pool.tick_spacing == -1 && (l == i32::MIN || u
        == i32::MIN)) {
        None
    } else {
        spec_modify_position(
            pool.ticks@,
            pool.tick_bitmap@,
            pool.liquidity,
            pool.tick,
            pool.tick_spacing as int,
            l,
            u,
            delta,
        )
    }
}

/// The amount reinterpreted as a signed 128-bit value, wrapping.
fn amount_as_i128(amount: u128) -> (r: i128)
    ensures
        r as int == wrap_i128(amount),
{
    if amount < 0x80000000000000000000000000000000u128 {
        amount as i128
    } else {
        let m: u128 = (u128::MAX - amount) + 1;
        if m == 0x80000000000000000000000000000000u128 {
            i128::MIN
        } else {
            -(m as i128)
        }
    }
}

} // verus!
