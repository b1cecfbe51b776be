use v3_pool_sim::errors::EventLogError;
use v3_pool_sim::events::{
    burn_event_signature, mint_event_signature, pair_created_event_signature,
    swap_event_signature, EventLog,
};
use v3_pool_sim::pool::{Address, UniswapV3Pool};
use v3_pool_sim::u256::U256;

fn word_bytes(w: &U256) -> Vec<u8> {
    let mut v = w.hi.to_be_bytes().to_vec();
    v.extend_from_slice(&w.lo.to_be_bytes());
    v
}

fn int24_topic(t: i32) -> U256 {
    if t >= 0 {
        U256 { hi: 0, lo: t as u128 }
    } else {
        // sign extension of a negative 24-bit value over 256 bits
        U256 { hi: u128::MAX, lo: u128::MAX - ((-(t as i64) as u128) - 1) }
    }
}

fn small_word(v: u128) -> U256 {
    U256 { hi: 0, lo: v }
}

fn mint_log(lower: i32, upper: i32, amount: u128) -> EventLog {
    let mut data = word_bytes(&small_word(0)); // sender
    data.extend(word_bytes(&small_word(amount)));
    data.extend(word_bytes(&small_word(1)));
    data.extend(word_bytes(&small_word(2)));
    EventLog {
        topics: vec![
            mint_event_signature(),
            small_word(0xabc),
            int24_topic(lower),
            int24_topic(upper),
        ],
        data,
        block_number: Some(1),
    }
}

fn burn_log(lower: i32, upper: i32, amount: u128) -> EventLog {
    let mut data = word_bytes(&small_word(amount));
    data.extend(word_bytes(&small_word(1)));
    data.extend(word_bytes(&small_word(2)));
    EventLog {
        topics: vec![
            burn_event_signature(),
            small_word(0xabc),
            int24_topic(lower),
            int24_topic(upper),
        ],
        data,
        block_number: Some(2),
    }
}

fn pool(spacing: i32) -> UniswapV3Pool {
    let mut p = UniswapV3Pool::new_empty(Address { hi: 3, lo: 3 });
    p.tick_spacing = spacing;
    p
}

#[test]
fn decode_mint_log_reads_ticks_and_amount() {
    let p = pool(10);
    let log = mint_log(-20, 40, 777);
    assert_eq!(p.decode_mint_log(&log).unwrap(), (-20, 40, 777));
}

#[test]
fn decode_burn_log_reads_ticks_and_amount() {
    let p = pool(10);
    let log = burn_log(-887270, 887270, 12345);
    assert_eq!(p.decode_burn_log(&log).unwrap(), (-887270, 887270, 12345));
}

#[test]
fn decode_rejects_short_data() {
    let p = pool(10);
    let mut log = mint_log(-20, 40, 777);
    log.data.truncate(60);
    assert_eq!(p.decode_mint_log(&log), Err(EventLogError::AbiDecodeFailed));
}

#[test]
fn decode_rejects_missing_topics() {
    let p = pool(10);
    let mut log = mint_log(-20, 40, 777);
    log.topics.truncate(2);
    assert_eq!(p.decode_mint_log(&log), Err(EventLogError::AbiDecodeFailed));
}

#[test]
fn decode_swap_log_reads_all_fields() {
    let p = pool(10);
    let price = U256 { lo: 79228162514264337593543950336u128, hi: 0 };
    let mut data = word_bytes(&small_word(100)); // amount0
    data.extend(word_bytes(&small_word(200))); // amount1
    data.extend(word_bytes(&price));
    data.extend(word_bytes(&small_word(987654321)));
    data.extend(word_bytes(&int24_topic(-5)));
    let log = EventLog {
        topics: vec![swap_event_signature(), small_word(1), small_word(2)],
        data,
        block_number: Some(3),
    };
    let (a0, a1, sp, liq, tick) = p.decode_swap_log(&log).unwrap();
    assert_eq!(a0, small_word(100));
    assert_eq!(a1, small_word(200));
    assert_eq!(sp, price);
    assert_eq!(liq, 987654321);
    assert_eq!(tick, -5);
}

#[test]
fn sync_from_log_dispatches_and_applies() {
    let mut p = pool(10);
    p.sync_from_log(&mint_log(-20, 40, 1000)).unwrap();
    assert_eq!(p.ticks.get(&-20).unwrap().liquidity_net, 1000);
    assert_eq!(p.liquidity, 1000);
    p.sync_from_log(&burn_log(-20, 40, 400)).unwrap();
    assert_eq!(p.ticks.get(&-20).unwrap().liquidity_net, 600);
    assert_eq!(p.liquidity, 600);
    // a swap log overwrites price, liquidity and tick
    let price = U256 { lo: 79224201403219477170569942574u128, hi: 0 };
    let mut data = word_bytes(&small_word(1));
    data.extend(word_bytes(&small_word(2)));
    data.extend(word_bytes(&price));
    data.extend(word_bytes(&small_word(600)));
    data.extend(word_bytes(&int24_topic(-1)));
    let swap = EventLog { topics: vec![swap_event_signature()], data, block_number: None };
    p.sync_from_log(&swap).unwrap();
    assert_eq!(p.sqrt_price, price);
    assert_eq!(p.liquidity, 600);
    assert_eq!(p.tick, -1);
}

#[test]
fn sync_from_log_rejects_unknown_signature() {
    let mut p = pool(10);
    let log = EventLog { topics: vec![small_word(0xdead)], data: vec![], block_number: None };
    assert_eq!(p.sync_from_log(&log), Err(EventLogError::InvalidEventSignature));
}

#[test]
fn burn_of_half_range_magnitude_is_rejected() {
    let mut p = pool(10);
    let log = burn_log(-20, 40, 1u128 << 127);
    assert_eq!(p.sync_from_burn_log(&log), Err(EventLogError::Arithmetic));
}

#[test]
fn mint_beyond_signed_range_is_rejected() {
    let mut p = pool(10);
    let before = p.ticks.len();
    let log = mint_log(-20, 40, 1u128 << 127);
    assert_eq!(p.sync_from_mint_log(&log), Err(EventLogError::Arithmetic));
    assert_eq!(p.ticks.len(), before);
}

#[test]
fn burn_data_must_hold_the_whole_layout() {
    let p = pool(10);
    let mut log = burn_log(-20, 40, 5);
    log.data.truncate(64);
    assert_eq!(p.decode_burn_log(&log), Err(EventLogError::AbiDecodeFailed));
}

#[test]
fn zero_delta_event_is_a_no_op_even_unhydrated() {
    // a zero-amount mint on a pool whose tick spacing is still unset
    let mut p = pool(0);
    assert_eq!(p.sync_from_mint_log(&mint_log(-20, 40, 0)), Ok(()));
    assert!(p.ticks.is_empty());
}

#[test]
fn new_empty_pool_from_creation_log() {
    let t0 = U256 { hi: 0xa0b86991, lo: 1 };
    let t1 = U256 { hi: 0xc02aaa39, lo: 2 };
    let mut data = word_bytes(&small_word(500)); // fee
    data.extend(word_bytes(&U256 { hi: 0x88e6a0c2, lo: 3 })); // pool address
    let log = EventLog {
        topics: vec![pair_created_event_signature(), t0, t1],
        data,
        block_number: Some(12369620),
    };
    let p = UniswapV3Pool::new_empty_pool_from_log(&log).unwrap();
    assert_eq!(p.fee, 500);
    assert_eq!(p.address, Address { hi: 0x88e6a0c2, lo: 3 });
    assert_eq!(p.token_a, Address { hi: 0xa0b86991, lo: 1 });
    assert_eq!(p.token_b, Address { hi: 0xc02aaa39, lo: 2 });
    assert_eq!(p.tick_spacing, 0);
    assert!(p.ticks.is_empty());
}

#[test]
fn new_empty_pool_rejects_other_signatures() {
    let log = EventLog {
        topics: vec![mint_event_signature(), small_word(1), small_word(2)],
        data: vec![0; 64],
        block_number: None,
    };
    match UniswapV3Pool::new_empty_pool_from_log(&log) {
        Err(e) => assert_eq!(e, EventLogError::InvalidEventSignature),
        Ok(_) => panic!("expected a rejected signature"),
    }
}

#[test]
fn swap_calldata_layout() {
    let p = pool(10);
    let recipient = Address { hi: 0, lo: 0x1122 };
    let amount = U256 { hi: 0, lo: 1_000_000 };
    let limit = U256 { lo: 4295128740, hi: 0 };
    let extra = vec![0xaau8, 0xbb, 0xcc];
    let out = p.swap_calldata(recipient, true, amount, limit, extra.clone());
    assert_eq!(&out[0..4], &[0x12, 0x8a, 0xcb, 0x08]);
    assert_eq!(out.len(), 196 + 32);
    // recipient word, right-aligned
    assert_eq!(out[35], 0x22);
    assert_eq!(out[34], 0x11);
    assert!(out[4..34].iter().all(|b| *b == 0));
    // bool word
    assert_eq!(out[67], 1);
    // offset word points at the bytes tail
    assert_eq!(out[163], 160);
    // length word and the copied, padded tail
    assert_eq!(out[195], 3);
    assert_eq!(&out[196..199], &[0xaa, 0xbb, 0xcc]);
    assert!(out[199..].iter().all(|b| *b == 0));
}
