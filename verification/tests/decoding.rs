use dex_indexer::types::{Address, DexError, Log, Protocol};
use dex_indexer::uniswapv2::{uniswap_v2_swap_topic_bytes, uniswapv2_event_filter, UniswapV2PairCreated, UniswapV2SwapEvent};
use dex_indexer::uniswapv3::{uniswap_v3_swap_topic_bytes, uniswapv3_event_filter, UniswapV3PoolCreated, UniswapV3SwapEvent};

fn addr(last: u8) -> Address {
    let mut bytes = vec![0u8; 20];
    bytes[19] = last;
    Address { bytes }
}

fn topic_with_low20(fill: u8) -> Vec<u8> {
    let mut t = vec![0u8; 32];
    let mut i = 12;
    while i < 32 {
        t[i] = fill;
        i += 1;
    }
    t
}

fn word_of_u64(v: u64) -> Vec<u8> {
    let mut w = vec![0u8; 32];
    let be = v.to_be_bytes();
    let mut i = 0;
    while i < 8 {
        w[24 + i] = be[i];
        i += 1;
    }
    w
}

fn neg_word_of_u64(v: u64) -> Vec<u8> {
    // two's-complement of a small positive value: complement then add one
    let w = word_of_u64(v);
    let mut r = vec![0u8; 32];
    let mut i = 0;
    while i < 32 {
        r[i] = !w[i];
        i += 1;
    }
    let mut j = 31;
    loop {
        if r[j] == 255 {
            r[j] = 0;
            j -= 1;
        } else {
            r[j] += 1;
            break;
        }
    }
    r
}

#[test]
fn v2_creation_decodes_tokens_and_pair() {
    let t1 = topic_with_low20(0xaa);
    let t2 = topic_with_low20(0xbb);
    let mut data = vec![0u8; 32];
    let mut i = 12;
    while i < 32 {
        data[i] = 0xcc;
        i += 1;
    }
    let log = Log { address: addr(1), topics: vec![vec![0u8; 32], t1, t2], data, block_number: 7 };
    let ev = UniswapV2PairCreated::try_from(&log).unwrap();
    assert_eq!(ev.token0.bytes, vec![0xaa; 20]);
    assert_eq!(ev.token1.bytes, vec![0xbb; 20]);
    assert_eq!(ev.pair.bytes, vec![0xcc; 20]);
}

#[test]
fn v2_creation_short_topics_is_malformed() {
    let log = Log {
        address: addr(1),
        topics: vec![vec![0u8; 32], vec![0u8; 32]],
        data: vec![0u8; 32],
        block_number: 0,
    };
    let r = UniswapV2PairCreated::try_from(&log);
    assert!(matches!(r, Err(DexError::MalformedLog)));
}

#[test]
fn v2_creation_short_data_is_malformed() {
    let log = Log {
        address: addr(1),
        topics: vec![vec![0u8; 32], vec![0u8; 32], vec![0u8; 32]],
        data: vec![0u8; 31],
        block_number: 0,
    };
    let r = UniswapV2PairCreated::try_from(&log);
    assert!(matches!(r, Err(DexError::MalformedLog)));
}

#[test]
fn v3_creation_short_topics_is_malformed() {
    let log = Log {
        address: addr(1),
        topics: vec![vec![0u8; 32], vec![0u8; 32]],
        data: vec![0u8; 64],
        block_number: 0,
    };
    let r = UniswapV3PoolCreated::try_from(&log);
    assert!(matches!(r, Err(DexError::MalformedLog)));
}

#[test]
fn v3_creation_decodes_fee_and_pool() {
    let t1 = topic_with_low20(0x11);
    let t2 = topic_with_low20(0x22);
    let mut fee_topic = vec![0u8; 32];
    fee_topic[29] = 0x01;
    fee_topic[30] = 0x00;
    fee_topic[31] = 0x2c;
    let mut data = vec![0u8; 64];
    let mut i = 44;
    while i < 64 {
        data[i] = 0x33;
        i += 1;
    }
    let log = Log {
        address: addr(1),
        topics: vec![vec![0u8; 32], t1, t2, fee_topic],
        data,
        block_number: 9,
    };
    let ev = UniswapV3PoolCreated::try_from(&log).unwrap();
    assert_eq!(ev.token0.bytes, vec![0x11; 20]);
    assert_eq!(ev.token1.bytes, vec![0x22; 20]);
    assert_eq!(ev.fee, 65580); // 0x01_00_2c big-endian
    assert_eq!(ev.pool.bytes, vec![0x33; 20]);
}

#[test]
fn v3_swap_positive_amount0_token0_is_input() {
    let mut data = Vec::new();
    data.extend_from_slice(&word_of_u64(100)); // amount0 = +100
    data.extend_from_slice(&neg_word_of_u64(250)); // amount1 = -250
    data.extend_from_slice(&word_of_u64(0)); // sqrtPriceX96
    data.extend_from_slice(&word_of_u64(777)); // liquidity
    data.extend_from_slice(&word_of_u64(0)); // tick
    let log = Log {
        address: addr(5),
        topics: vec![uniswap_v3_swap_topic_bytes()],
        data,
        block_number: 1,
    };
    let ev = UniswapV3SwapEvent::try_from_log(&log, &addr(0xa0), &addr(0xb0)).unwrap();
    assert!(ev.token0_is_input);
    assert_eq!(ev.amount0.bytes, word_of_u64(100));
    assert_eq!(ev.amount1.bytes, word_of_u64(250));
    assert_eq!(ev.liquidity, 777);
    assert_eq!(ev.pool.bytes, addr(5).bytes);
    assert_eq!(ev.token0.bytes, addr(0xa0).bytes);
    assert_eq!(ev.token1.bytes, addr(0xb0).bytes);
}

#[test]
fn v3_swap_reversed_signs_swap_roles_keep_magnitudes() {
    let mut data = Vec::new();
    data.extend_from_slice(&neg_word_of_u64(100)); // amount0 = -100
    data.extend_from_slice(&word_of_u64(250)); // amount1 = +250
    data.extend_from_slice(&word_of_u64(0));
    data.extend_from_slice(&word_of_u64(1));
    data.extend_from_slice(&word_of_u64(0));
    let log = Log {
        address: addr(5),
        topics: vec![uniswap_v3_swap_topic_bytes()],
        data,
        block_number: 1,
    };
    let ev = UniswapV3SwapEvent::try_from_log(&log, &addr(0xa0), &addr(0xb0)).unwrap();
    assert!(!ev.token0_is_input);
    assert_eq!(ev.amount0.bytes, word_of_u64(100));
    assert_eq!(ev.amount1.bytes, word_of_u64(250));
}

#[test]
fn v3_swap_zero_amounts_treat_token1_as_input() {
    let log = Log {
        address: addr(5),
        topics: vec![uniswap_v3_swap_topic_bytes()],
        data: vec![0u8; 160],
        block_number: 1,
    };
    let ev = UniswapV3SwapEvent::try_from_log(&log, &addr(0xa0), &addr(0xb0)).unwrap();
    // zero is not positive, and its two's-complement negation is zero again
    assert!(!ev.token0_is_input);
    assert_eq!(ev.amount0.bytes, vec![0u8; 32]);
    assert_eq!(ev.amount1.bytes, vec![0u8; 32]);
}

#[test]
fn v3_swap_wrong_topic_is_unexpected_signature() {
    let log = Log {
        address: addr(5),
        topics: vec![uniswap_v2_swap_topic_bytes()],
        data: vec![0u8; 160],
        block_number: 1,
    };
    let r = UniswapV3SwapEvent::try_from_log(&log, &addr(1), &addr(2));
    assert!(matches!(r, Err(DexError::UnexpectedEventSignature)));
}

#[test]
fn v3_swap_short_data_is_malformed() {
    let log = Log {
        address: addr(5),
        topics: vec![uniswap_v3_swap_topic_bytes()],
        data: vec![0u8; 159],
        block_number: 1,
    };
    let r = UniswapV3SwapEvent::try_from_log(&log, &addr(1), &addr(2));
    assert!(matches!(r, Err(DexError::MalformedLog)));
}

#[test]
fn v2_swap_decodes_four_amounts() {
    let mut data = Vec::new();
    data.extend_from_slice(&word_of_u64(10));
    data.extend_from_slice(&word_of_u64(0));
    data.extend_from_slice(&word_of_u64(0));
    data.extend_from_slice(&word_of_u64(42));
    let log = Log {
        address: addr(9),
        topics: vec![uniswap_v2_swap_topic_bytes()],
        data,
        block_number: 3,
    };
    let ev = UniswapV2SwapEvent::try_from_log(&log, &addr(0x01), &addr(0x02)).unwrap();
    assert_eq!(ev.pool.bytes, addr(9).bytes);
    assert_eq!(ev.amount0_in.bytes, word_of_u64(10));
    assert_eq!(ev.amount1_in.bytes, word_of_u64(0));
    assert_eq!(ev.amount0_out.bytes, word_of_u64(0));
    assert_eq!(ev.amount1_out.bytes, word_of_u64(42));
}

#[test]
fn v2_swap_wrong_topic_is_unexpected_signature() {
    let log = Log {
        address: addr(9),
        topics: vec![vec![7u8; 32]],
        data: vec![0u8; 128],
        block_number: 3,
    };
    let r = UniswapV2SwapEvent::try_from_log(&log, &addr(1), &addr(2));
    assert!(matches!(r, Err(DexError::UnexpectedEventSignature)));
}

#[test]
fn unknown_topic_is_unsupported_protocol() {
    let topic = vec![0u8; 32];
    let r = Protocol::try_from_event_topic(&topic);
    assert!(matches!(r, Err(DexError::UnsupportedProtocol)));
}

#[test]
fn known_topics_dispatch_to_their_protocols() {
    let v2 = Protocol::try_from_event_topic(&uniswap_v2_swap_topic_bytes()).unwrap();
    assert_eq!(v2, Protocol::UniSwapV2);
    let v3 = Protocol::try_from_event_topic(&uniswap_v3_swap_topic_bytes()).unwrap();
    assert_eq!(v3, Protocol::UniSwapV3);
}

#[test]
fn log_dispatch_without_topics_is_malformed() {
    let log = Log { address: addr(1), topics: vec![], data: vec![], block_number: 0 };
    let r = Protocol::try_from_log(&log);
    assert!(matches!(r, Err(DexError::MalformedLog)));
}

#[test]
fn event_filters_carry_factory_and_block() {
    let f2 = uniswapv2_event_filter(123);
    assert_eq!(f2.from_block, 123);
    assert_eq!(f2.address.bytes[0], 0x5c);
    assert_eq!(f2.address.bytes[19], 0x6f);
    assert!(f2.event.starts_with("PairCreated("));
    let f3 = uniswapv3_event_filter(456);
    assert_eq!(f3.from_block, 456);
    assert_eq!(f3.address.bytes[0], 0x1f);
    assert_eq!(f3.address.bytes[19], 0x84);
    assert_eq!(f3.event, "PoolCreated(address,address,uint24,int24,address)");
    let g2 = Protocol::UniSwapV2.event_filter(123);
    assert_eq!(g2.address.bytes, f2.address.bytes);
    let g3 = Protocol::UniSwapV3.event_filter(456);
    assert_eq!(g3.address.bytes, f3.address.bytes);
}
