use std::collections::HashMap;
use v3_pool_sim::pool::{Address, Info, UniswapV3Pool};
use v3_pool_sim::u256::U256;

fn empty_pool(spacing: i32) -> UniswapV3Pool {
    let mut p = UniswapV3Pool::new_empty(Address { hi: 7, lo: 7 });
    p.tick_spacing = spacing;
    p
}

fn net_sum(pool: &UniswapV3Pool) -> i128 {
    pool.ticks.values().map(|i| i.liquidity_net).sum()
}

fn bit_of(pool: &UniswapV3Pool, compressed: i32) -> bool {
    let word = (compressed >> 8) as i16;
    let bit = (compressed & 0xff) as u8;
    match pool.tick_bitmap.get(&word) {
        Some(w) => w.bit(bit),
        None => false,
    }
}

#[test]
fn info_new_sets_fields() {
    let i = Info::new(5, -3, true);
    assert_eq!(i.liquidity_gross, 5);
    assert_eq!(i.liquidity_net, -3);
    assert!(i.initialized);
}

#[test]
fn mint_initializes_both_endpoints() {
    let mut p = empty_pool(10);
    p.modify_position(-20, 40, 1000).unwrap();
    let lower = p.ticks.get(&-20).unwrap();
    assert_eq!(lower.liquidity_gross, 1000);
    assert_eq!(lower.liquidity_net, 1000);
    assert!(lower.initialized);
    let upper = p.ticks.get(&40).unwrap();
    assert_eq!(upper.liquidity_gross, 1000);
    assert_eq!(upper.liquidity_net, -1000);
    assert!(upper.initialized);
    assert!(bit_of(&p, -2));
    assert!(bit_of(&p, 4));
    // current tick 0 lies inside the range
    assert_eq!(p.liquidity, 1000);
}

#[test]
fn mint_then_burn_restores_empty_state() {
    let mut p = empty_pool(10);
    p.modify_position(-20, 40, 1000).unwrap();
    p.modify_position(-20, 40, -1000).unwrap();
    assert!(p.ticks.is_empty());
    assert!(!bit_of(&p, -2));
    assert!(!bit_of(&p, 4));
    assert_eq!(p.liquidity, 0);
}

#[test]
fn net_sum_stays_zero_over_mints_and_matched_burns() {
    let mut p = empty_pool(10);
    assert_eq!(net_sum(&p), 0);
    p.modify_position(-20, 40, 1000).unwrap();
    assert_eq!(net_sum(&p), 0);
    p.modify_position(-20, 100, 700).unwrap();
    assert_eq!(net_sum(&p), 0);
    p.modify_position(40, 100, 42).unwrap();
    assert_eq!(net_sum(&p), 0);
    p.modify_position(-20, 40, -500).unwrap();
    assert_eq!(net_sum(&p), 0);
}

#[test]
fn gross_bounds_net_after_mints() {
    let mut p = empty_pool(10);
    p.modify_position(-20, 40, 1000).unwrap();
    p.modify_position(-20, 100, 700).unwrap();
    p.modify_position(40, 100, 42).unwrap();
    for info in p.ticks.values() {
        assert!(info.liquidity_net.unsigned_abs() <= info.liquidity_gross);
    }
}

#[test]
fn unmatched_burn_can_break_gross_net_bound() {
    // a burn of a range nobody minted, paid for by other ticks' liquidity:
    // gross underflows on one side and the update is rejected atomically
    let mut p = empty_pool(10);
    p.modify_position(0, 10, 5).unwrap();
    p.modify_position(20, 30, 5).unwrap();
    assert!(p.modify_position(10, 20, -3).is_ok());
    // tick 10 was minted as an upper endpoint (gross 5) and burned as a
    // lower one; its net now exceeds its gross
    let t10 = p.ticks.get(&10).unwrap();
    assert_eq!(t10.liquidity_gross, 2);
    assert_eq!(t10.liquidity_net, -8);
    assert!(t10.liquidity_net.unsigned_abs() > t10.liquidity_gross);
}

#[test]
fn burn_underflow_is_rejected_atomically() {
    let mut p = empty_pool(10);
    p.modify_position(0, 10, 5).unwrap();
    let snapshot: HashMap<i32, Info> = p.ticks.clone();
    let liq = p.liquidity;
    assert!(p.modify_position(20, 30, -1).is_err());
    assert_eq!(p.ticks.len(), snapshot.len());
    for (k, v) in snapshot.iter() {
        assert_eq!(p.ticks.get(k), Some(v));
    }
    assert_eq!(p.liquidity, liq);
}

#[test]
fn same_endpoint_position_cancels_net() {
    let mut p = empty_pool(10);
    p.modify_position(30, 30, 12).unwrap();
    let t = p.ticks.get(&30).unwrap();
    assert_eq!(t.liquidity_gross, 24);
    assert_eq!(t.liquidity_net, 0);
    assert_eq!(net_sum(&p), 0);
}

#[test]
fn flip_tick_toggles_exactly_one_bit() {
    let mut p = empty_pool(1);
    p.flip_tick(300, 1).unwrap();
    assert!(bit_of(&p, 300));
    assert!(!bit_of(&p, 299));
    assert!(!bit_of(&p, 301));
    p.flip_tick(300, 1).unwrap();
    assert!(!bit_of(&p, 300));
}

#[test]
fn compressed_rounds_toward_negative_infinity() {
    let p = empty_pool(10);
    assert_eq!(p.calculate_compressed(25), 2);
    assert_eq!(p.calculate_compressed(-25), -3);
    assert_eq!(p.calculate_compressed(-30), -3);
    assert_eq!(p.calculate_compressed(30), 3);
}

#[test]
fn word_and_bit_positions() {
    let p = empty_pool(10);
    assert_eq!(p.calculate_word_pos_bit_pos(0), (0, 0));
    assert_eq!(p.calculate_word_pos_bit_pos(257), (1, 1));
    assert_eq!(p.calculate_word_pos_bit_pos(-1), (-1, 255));
    assert_eq!(p.calculate_word_pos_bit_pos(-256), (-1, 0));
}

#[test]
fn next_initialized_tick_in_both_directions() {
    let mut p = empty_pool(10);
    p.modify_position(-20, 40, 1000).unwrap();
    // searching down from tick 0 stops at the word boundary: the set bit
    // of tick -20 lies in the word below
    let (next, initialized) =
        v3_pool_sim::bitmap::next_initialized_tick_within_one_word(&p.tick_bitmap, 0, 10, true)
            .unwrap();
    assert_eq!((next, initialized), (0, false));
    // from inside the lower word the set bit is found
    let (next2, init2) =
        v3_pool_sim::bitmap::next_initialized_tick_within_one_word(&p.tick_bitmap, -1, 10, true)
            .unwrap();
    assert_eq!((next2, init2), (-20, true));
    let (next_up, init_up) =
        v3_pool_sim::bitmap::next_initialized_tick_within_one_word(&p.tick_bitmap, 0, 10, false)
            .unwrap();
    assert_eq!((next_up, init_up), (40, true));
    // below the set bit the search reports the word start, uninitialized
    let (floor, init_floor) =
        v3_pool_sim::bitmap::next_initialized_tick_within_one_word(&p.tick_bitmap, -30, 10, true)
            .unwrap();
    assert_eq!(init_floor, false);
    assert_eq!(floor, -2560);
}

#[test]
fn tokens_and_token_out() {
    let a = Address { hi: 1, lo: 1 };
    let b = Address { hi: 2, lo: 2 };
    let mut p = UniswapV3Pool::new_empty(Address { hi: 9, lo: 9 });
    p.token_a = a;
    p.token_b = b;
    assert_eq!(p.tokens(), vec![a, b]);
    assert_eq!(p.get_token_out(a), b);
    assert_eq!(p.get_token_out(b), a);
    assert!(p.data_is_populated());
    assert_eq!(p.fee(), 0);
    assert_eq!(p.address(), Address { hi: 9, lo: 9 });
}

#[test]
fn hydration_windows_cover_the_range() {
    let w = UniswapV3Pool::hydration_windows(12369620, 12569620);
    assert_eq!(w.len(), 3);
    assert_eq!(w[0], (12369620, 12469620));
    assert_eq!(w[1], (12469620, 12569620));
    assert_eq!(w[2], (12569620, 12669620));
    assert!(UniswapV3Pool::hydration_windows(10, 5).is_empty());
}
