use dex_indexer::types::{Address, DexError, Pool, PoolExtra, Protocol, Token};
use dex_indexer::version::build_version;

fn addr(last: u8) -> Address {
    let mut bytes = vec![0u8; 20];
    bytes[19] = last;
    Address { bytes }
}

fn sample_pool() -> Pool {
    Pool {
        protocol: Protocol::UniSwapV2,
        pool: addr(0xfe),
        tokens: vec![Token::new(&addr(0x01), 18), Token::new(&addr(0x02), 6)],
        extra: PoolExtra::UniSwapV2 { fee: 5 },
    }
}

#[test]
fn pool_equality_is_address_only() {
    let a = sample_pool();
    let mut b = sample_pool();
    b.protocol = Protocol::UniSwapV3;
    b.tokens = vec![Token::new(&addr(0x07), 9), Token::new(&addr(0x08), 9)];
    b.extra = PoolExtra::NoExtra;
    assert!(a == b);
    let mut c = sample_pool();
    c.pool = addr(0xff);
    assert!(a != c);
}

#[test]
fn pool_accessors_report_tokens() {
    let p = sample_pool();
    assert_eq!(p.token_count(), 2);
    assert_eq!(p.token0_type().bytes, addr(0x01).bytes);
    assert_eq!(p.token1_type().bytes, addr(0x02).bytes);
    assert_eq!(p.token_index(&addr(0x02)), Some(1));
    assert_eq!(p.token_index(&addr(0x09)), None);
    let t = p.token(1).unwrap();
    assert_eq!(t.token_address.bytes, addr(0x02).bytes);
    assert_eq!(t.decimals, 6);
    assert!(p.token(2).is_none());
}

#[test]
fn token01_pair_lists_all_position_pairs() {
    let mut p = sample_pool();
    p.tokens = vec![
        Token::new(&addr(0x01), 18),
        Token::new(&addr(0x02), 6),
        Token::new(&addr(0x03), 8),
    ];
    let pairs = p.token01_pair();
    assert_eq!(pairs.len(), 3);
    assert_eq!(pairs[0].0.bytes, addr(0x01).bytes);
    assert_eq!(pairs[0].1.bytes, addr(0x02).bytes);
    assert_eq!(pairs[1].0.bytes, addr(0x01).bytes);
    assert_eq!(pairs[1].1.bytes, addr(0x03).bytes);
    assert_eq!(pairs[2].0.bytes, addr(0x02).bytes);
    assert_eq!(pairs[2].1.bytes, addr(0x03).bytes);
}

#[test]
fn protocol_display_parse_round_trip() {
    for p in [Protocol::UniSwapV2, Protocol::UniSwapV3] {
        let shown = p.display();
        let back = Protocol::parse(shown.as_str()).unwrap();
        assert_eq!(back, p);
    }
    assert_eq!(Protocol::UniSwapV2.display(), "uniswapv2");
    assert_eq!(Protocol::UniSwapV3.display(), "uniswapv3");
}

#[test]
fn unknown_protocol_name_is_rejected() {
    let r = Protocol::parse("uniswapv4");
    assert!(matches!(r, Err(DexError::UnsupportedProtocolName)));
}

#[test]
fn pool_text_has_expected_shape() {
    let p = sample_pool();
    let text = p.to_text();
    assert_eq!(
        text,
        "uniswapv2|0x00000000000000000000000000000000000000fe|\
         0x0000000000000000000000000000000000000001:18,\
         0x0000000000000000000000000000000000000002:6|uniswapv2:5"
    );
}

#[test]
fn pool_text_round_trip_preserves_everything() {
    let p = sample_pool();
    let q = Pool::from_text(p.to_text().as_str()).unwrap();
    assert!(p == q); // address-only equality
    assert_eq!(q.protocol, p.protocol);
    assert_eq!(q.pool.bytes, p.pool.bytes);
    assert_eq!(q.tokens.len(), p.tokens.len());
    for i in 0..p.tokens.len() {
        assert_eq!(q.tokens[i].token_address.bytes, p.tokens[i].token_address.bytes);
        assert_eq!(q.tokens[i].decimals, p.tokens[i].decimals);
    }
    assert_eq!(q.extra, p.extra);
}

#[test]
fn pool_text_round_trip_v3_and_none_extra() {
    let mut p = sample_pool();
    p.protocol = Protocol::UniSwapV3;
    p.extra = PoolExtra::UniSwapV3 { fee: 3000 };
    let q = Pool::from_text(p.to_text().as_str()).unwrap();
    assert_eq!(q.protocol, Protocol::UniSwapV3);
    assert_eq!(q.extra, PoolExtra::UniSwapV3 { fee: 3000 });
    p.extra = PoolExtra::NoExtra;
    let q2 = Pool::from_text(p.to_text().as_str()).unwrap();
    assert_eq!(q2.extra, PoolExtra::NoExtra);
}

#[test]
fn pool_text_with_three_fields_is_invalid() {
    let r = Pool::from_text("uniswapv2|0x00000000000000000000000000000000000000fe|x");
    assert!(matches!(r, Err(DexError::InvalidFormat)));
}

#[test]
fn pool_text_with_unknown_protocol_is_rejected() {
    let r = Pool::from_text(
        "sushiswap|0x00000000000000000000000000000000000000fe|\
         0x0000000000000000000000000000000000000001:18,\
         0x0000000000000000000000000000000000000002:6|none",
    );
    assert!(matches!(r, Err(DexError::UnsupportedProtocolName)));
}

#[test]
fn pool_text_with_one_token_is_invalid() {
    let r = Pool::from_text(
        "uniswapv2|0x00000000000000000000000000000000000000fe|\
         0x0000000000000000000000000000000000000001:18|none",
    );
    assert!(matches!(r, Err(DexError::InvalidFormat)));
}

#[test]
fn pool_text_with_bad_address_is_invalid() {
    let r = Pool::from_text(
        "uniswapv2|0xzz000000000000000000000000000000000000fe|\
         0x0000000000000000000000000000000000000001:18,\
         0x0000000000000000000000000000000000000002:6|none",
    );
    assert!(matches!(r, Err(DexError::InvalidFormat)));
}

#[test]
fn pool_text_with_oversized_decimals_is_invalid() {
    let r = Pool::from_text(
        "uniswapv2|0x00000000000000000000000000000000000000fe|\
         0x0000000000000000000000000000000000000001:256,\
         0x0000000000000000000000000000000000000002:6|none",
    );
    assert!(matches!(r, Err(DexError::InvalidFormat)));
}

#[test]
fn build_version_formats_commit_line() {
    let v = build_version("abc1234,2024-01-02", false, "main").unwrap();
    assert_eq!(v, "\"main-abc1234@2024-01-02\"");
    let d = build_version("abc1234,2024-01-02", true, "dev").unwrap();
    assert_eq!(d, "\"dev-abc1234-dirty@2024-01-02\"");
}

#[test]
fn build_version_rejects_unexpected_format() {
    assert!(build_version("abc1234", false, "main").is_none());
    assert!(build_version("a,b,c", false, "main").is_none());
}
