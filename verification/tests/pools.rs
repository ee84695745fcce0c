use dex_indexer::resolver::DecimalsResolver;
use dex_indexer::types::{Address, DexError, Log, PoolExtra, Protocol};
use dex_indexer::uniswapv2::UniswapV2PairCreated;
use dex_indexer::uniswapv3::UniswapV3PoolCreated;

fn addr(last: u8) -> Address {
    let mut bytes = vec![0u8; 20];
    bytes[19] = last;
    Address { bytes }
}

fn topic_with_low20(fill: u8) -> Vec<u8> {
    let mut t = vec![0u8; 32];
    let mut i = 12;
    while i < 32 {
        t[i] = fill;
        i += 1;
    }
    t
}

fn v2_creation_log() -> Log {
    let mut data = vec![0u8; 32];
    let mut i = 12;
    while i < 32 {
        data[i] = 0xcc;
        i += 1;
    }
    Log {
        address: addr(1),
        topics: vec![vec![0u8; 32], topic_with_low20(0xaa), topic_with_low20(0xbb)],
        data,
        block_number: 7,
    }
}

fn v3_creation_log() -> Log {
    let mut fee_topic = vec![0u8; 32];
    fee_topic[30] = 0x0b;
    fee_topic[31] = 0xb8; // fee 3000
    let mut data = vec![0u8; 64];
    let mut i = 44;
    while i < 64 {
        data[i] = 0x33;
        i += 1;
    }
    Log {
        address: addr(1),
        topics: vec![vec![0u8; 32], topic_with_low20(0xaa), topic_with_low20(0xbb), fee_topic],
        data,
        block_number: 7,
    }
}

#[test]
fn v2_to_pool_builds_two_tokens() {
    let ev = UniswapV2PairCreated::try_from(&v2_creation_log()).unwrap();
    let pool = ev.to_pool(18, 6);
    assert_eq!(pool.protocol, Protocol::UniSwapV2);
    assert_eq!(pool.pool.bytes, vec![0xcc; 20]);
    assert_eq!(pool.tokens.len(), 2);
    assert_eq!(pool.tokens[0].token_address.bytes, vec![0xaa; 20]);
    assert_eq!(pool.tokens[0].decimals, 18);
    assert_eq!(pool.tokens[1].token_address.bytes, vec![0xbb; 20]);
    assert_eq!(pool.tokens[1].decimals, 6);
    assert_eq!(pool.extra, PoolExtra::UniSwapV2 { fee: 5 });
}

#[test]
fn v3_to_pool_carries_the_fee() {
    let ev = UniswapV3PoolCreated::try_from(&v3_creation_log()).unwrap();
    assert_eq!(ev.fee, 3000);
    let pool = ev.to_pool(18, 6);
    assert_eq!(pool.protocol, Protocol::UniSwapV3);
    assert_eq!(pool.pool.bytes, vec![0x33; 20]);
    assert_eq!(pool.extra, PoolExtra::UniSwapV3 { fee: 3000 });
}

#[test]
fn eth_event_to_pool_uses_cached_decimals() {
    let mut resolver = DecimalsResolver::new();
    let token0 = Address { bytes: vec![0xaa; 20] };
    let token1 = Address { bytes: vec![0xbb; 20] };
    resolver.request(&token0);
    resolver.complete(&token0, Some(18));
    resolver.request(&token1);
    resolver.complete(&token1, Some(6));
    let pool = Protocol::UniSwapV2.eth_event_to_pool(&v2_creation_log(), &resolver).unwrap();
    assert_eq!(pool.tokens[0].decimals, 18);
    assert_eq!(pool.tokens[1].decimals, 6);
    assert_eq!(pool.pool.bytes, vec![0xcc; 20]);
}

#[test]
fn eth_event_to_pool_reports_the_missing_token() {
    let resolver = DecimalsResolver::new();
    let r = Protocol::UniSwapV2.eth_event_to_pool(&v2_creation_log(), &resolver);
    match r {
        Err(DexError::RpcError { address }) => {
            assert_eq!(address.bytes, vec![0xaa; 20]);
        },
        other => panic!("expected RpcError, got {:?}", other),
    }
}

#[test]
fn eth_event_to_pool_rejects_short_logs() {
    let log = Log { address: addr(1), topics: vec![vec![0u8; 32]], data: vec![], block_number: 0 };
    let r = Protocol::UniSwapV3.eth_event_to_pool(&log, &DecimalsResolver::new());
    assert!(matches!(r, Err(DexError::MalformedLog)));
}
