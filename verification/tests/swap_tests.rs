use std::collections::HashMap;
use v3_pool_sim::math::{get_sqrt_ratio_at_tick, get_tick_at_sqrt_ratio, tick_ratio_round_trip};
use v3_pool_sim::pool::{Address, UniswapV3Pool};
use v3_pool_sim::u256::U256;

fn token_a() -> Address {
    Address { hi: 0xa0b86991, lo: 0xc6218b36c1d19d4a2e9eb0ce3606eb48 }
}

fn token_b() -> Address {
    Address { hi: 0xc02aaa39, lo: 0xb223fe8d0a0e5c4f27ead9083c756cc2 }
}

fn test_pool() -> UniswapV3Pool {
    let price = get_sqrt_ratio_at_tick(505).unwrap();
    let mut pool = UniswapV3Pool::new(
        Address { hi: 1, lo: 2 },
        token_a(),
        6,
        token_b(),
        18,
        500,
        0,
        price,
        505,
        10,
        HashMap::new(),
        HashMap::new(),
    );
    // one wide position straddling the current tick, and a second one whose
    // lower end marks tick zero, so the word boundary under the price is an
    // initialized tick
    pool.modify_position(-1000, 1000, 50_000_000_000_000i128)
        .expect("position should apply");
    pool.modify_position(0, 1000, 10_000_000_000_000i128)
        .expect("position should apply");
    assert_eq!(pool.liquidity, 60_000_000_000_000u128);
    pool
}

#[test]
fn swap_zero_amount_is_identity() {
    let mut pool = test_pool();
    let before = pool.clone();
    let out = pool
        .simulate_swap_mut(token_a(), U256 { lo: 0, hi: 0 })
        .expect("zero swap succeeds");
    assert_eq!(out, U256 { lo: 0, hi: 0 });
    assert_eq!(pool.sqrt_price, before.sqrt_price);
    assert_eq!(pool.tick, before.tick);
    assert_eq!(pool.liquidity, before.liquidity);
}

#[test]
fn swap_small_amount_produces_output() {
    let pool = test_pool();
    let out = pool
        .simulate_swap(token_a(), U256 { lo: 1_000_000, hi: 0 })
        .expect("swap succeeds");
    assert!(out.hi == 0 && out.lo > 0, "expected a positive output");
    // the price at tick 505 is about 1.0518, minus the 0.05% fee
    assert!(1_040_000 < out.lo && out.lo < 1_060_000, "output should track the price");
}

#[test]
fn swap_is_deterministic() {
    let pool = test_pool();
    let a = pool.simulate_swap(token_a(), U256 { lo: 123_456_789, hi: 0 }).unwrap();
    let b = pool.simulate_swap(token_a(), U256 { lo: 123_456_789, hi: 0 }).unwrap();
    assert_eq!(a, b);
}

#[test]
fn swap_mut_commits_pure_terminal_state() {
    let mut pool = test_pool();
    let pure = pool.clone();
    let amount = U256 { lo: 7_777_777, hi: 0 };
    let out_pure = pure.simulate_swap(token_a(), amount).unwrap();
    let out_mut = pool.simulate_swap_mut(token_a(), amount).unwrap();
    assert_eq!(out_pure, out_mut);
    // committing moved the price down (token_a in) and left liquidity alone
    // inside the unchanged range
    assert!(pool.sqrt_price.lt(&pure.sqrt_price));
    assert_eq!(pool.liquidity, pure.liquidity);
    // a second identical swap from the committed state differs from the
    // first, so the commit really happened
    let out_again = pool.simulate_swap(token_a(), amount).unwrap();
    assert_ne!(out_again, out_pure);
}

#[test]
fn swap_both_directions_move_price_oppositely() {
    let mut down = test_pool();
    let mut up = test_pool();
    let amount = U256 { lo: 5_000_000, hi: 0 };
    let start = test_pool().sqrt_price;
    down.simulate_swap_mut(token_a(), amount).unwrap();
    up.simulate_swap_mut(token_b(), amount).unwrap();
    assert!(down.sqrt_price.lt(&start));
    assert!(start.lt(&up.sqrt_price));
}

#[test]
fn swap_crossing_initialized_tick_changes_liquidity() {
    let mut pool = test_pool();
    let before_liq = pool.liquidity;
    // push enough that the price crosses tick zero, the lower end of the
    // narrower position, dropping its liquidity from the active range
    pool.simulate_swap_mut(token_a(), U256 { lo: 2_000_000_000_000, hi: 0 })
        .expect("crossing swap succeeds");
    assert!(pool.tick < 0);
    assert_eq!(pool.liquidity, before_liq - 10_000_000_000_000u128);
}

#[test]
fn tick_sqrt_ratio_round_trip() {
    for t in [-887272i32, -100_000, -23, 0, 1, 56_789, 887271] {
        assert_eq!(tick_ratio_round_trip(t).unwrap(), t);
    }
}

#[test]
fn sqrt_ratio_matches_published_bounds() {
    let min = get_sqrt_ratio_at_tick(-887272).unwrap();
    assert_eq!(min, U256 { lo: 4295128739, hi: 0 });
    let max = get_sqrt_ratio_at_tick(887272).unwrap();
    assert_eq!(max, U256 { lo: 0xefd1fc6a506488495d951d5263988d26, hi: 0xfffd8963 });
    assert!(get_sqrt_ratio_at_tick(887273).is_err());
    assert!(get_sqrt_ratio_at_tick(-887273).is_err());
}

#[test]
fn tick_at_sqrt_ratio_brackets() {
    // the ratio of tick 100 maps back to tick 100; one less maps to 99
    let r = get_sqrt_ratio_at_tick(100).unwrap();
    assert_eq!(get_tick_at_sqrt_ratio(&r).unwrap(), 100);
    let slightly_less = U256 { lo: r.lo - 1, hi: r.hi };
    assert_eq!(get_tick_at_sqrt_ratio(&slightly_less).unwrap(), 99);
    // out of the open domain
    let max = get_sqrt_ratio_at_tick(887272).unwrap();
    assert!(get_tick_at_sqrt_ratio(&max).is_err());
}
