//! UniswapV2-style decoding: the `PairCreated` creation event, the `Swap`
//! event with four unsigned amounts, and the factory event filter.

use vstd::prelude::*;
use crate::bytes::copy_range;
use crate::types::{Address, DexError, FilterSpec, Log, Pool, PoolExtra, Protocol, Token, TokenV, U256};

verus! {

/// The signature hash of the UniswapV2 `Swap` event.
pub open spec fn uniswap_v2_swap_topic() -> Seq<u8> {
    seq![
        0xd7u8, 0x8a, 0xd9, 0x5f, 0xa4, 0x6c, 0x99, 0x4b, 0x65, 0x51, 0xd0, 0xda, 0x85, 0xfc, 0x27,
        0x5f, 0xe6, 0x13, 0xce, 0x37, 0x65, 0x7f, 0xb8, 0xd5, 0xe3, 0xd1, 0x30, 0x84, 0x01, 0x59,
        0xd8, 0x22,
    ]
}

/// The UniswapV2 factory contract address.
pub open spec fn uniswap_v2_factory_address() -> Seq<u8> {
    seq![
        0x5cu8, 0x69, 0xbe, 0xe7, 0x01, 0xef, 0x81, 0x4a, 0x2b, 0x6a, 0x3e, 0xdd, 0x4b, 0x16, 0x52,
        0xcb, 0x9c, 0xc5, 0xaa, 0x6f,
    ]
}

/// The `PairCreated` signature text used in the event filter.
pub open spec fn uniswap_v2_creation_event_text() -> Seq<char> {
    "PairCreated(address indexed token0, address indexed token1, address pair, uint)"@
}

/// The UniswapV2 `Swap` signature hash, as bytes.
pub fn uniswap_v2_swap_topic_bytes() -> (r: Vec<u8>)
    ensures
        r@ == uniswap_v2_swap_topic(),
{
    let mut r: Vec<u8> = Vec::new();
    r.push(0xd7);
    r.push(0x8a);
    r.push(0xd9);
    r.push(0x5f);
    r.push(0xa4);
    r.push(0x6c);
    r.push(0x99);
    r.push(0x4b);
    r.push(0x65);
    r.push(0x51);
    r.push(0xd0);
    r.push(0xda);
    r.push(0x85);
    r.push(0xfc);
    r.push(0x27);
    r.push(0x5f);
    r.push(0xe6);
    r.push(0x13);
    r.push(0xce);
    r.push(0x37);
    r.push(0x65);
    r.push(0x7f);
    r.push(0xb8);
    r.push(0xd5);
    r.push(0xe3);
    r.push(0xd1);
    r.push(0x30);
    r.push(0x84);
    r.push(0x01);
    r.push(0x59);
    r.push(0xd8);
    r.push(0x22);
    proof {
        assert(r@ =~= uniswap_v2_swap_topic());
    }
    r
}

/// The UniswapV2 factory address, as bytes.
pub fn uniswap_v2_factory() -> (r: Address)
    ensures
        r@ == uniswap_v2_factory_address(),
        r.wf(),
{
    let mut b: Vec<u8> = Vec::new();
    b.push(0x5c);
    b.push(0x69);
    b.push(0xbe);
    b.push(0xe7);
    b.push(0x01);
    b.push(0xef);
    b.push(0x81);
    b.push(0x4a);
    b.push(0x2b);
    b.push(0x6a);
    b.push(0x3e);
    b.push(0xdd);
    b.push(0x4b);
    b.push(0x16);
    b.push(0x52);
    b.push(0xcb);
    b.push(0x9c);
    b.push(0xc5);
    b.push(0xaa);
    b.push(0x6f);
    proof {
        assert(b@ =~= uniswap_v2_factory_address());
    }
    Address::new(b)
}

/// The filter that watches the UniswapV2 factory for `PairCreated` events
/// from `block` on, with no upper bound.
pub fn uniswapv2_event_filter(block: u64) -> (r: FilterSpec)
    ensures
        r.address@ == uniswap_v2_factory_address(),
        r.event@ == uniswap_v2_creation_event_text(),
        r.from_block == block,
{
    FilterSpec {
        address: uniswap_v2_factory(),
        event: String::from_str(
            "PairCreated(address indexed token0, address indexed token1, address pair, uint)",
        ),
        from_block: block,
    }
}

/// True when a log has enough topics and data to decode a `PairCreated` event.
pub open spec fn v2_creation_ok(log: Log) -> bool {
    log.topics@.len() >= 3 && log.data@.len() >= 32
}

/// `token0` of a `PairCreated` log: the low 20 bytes of `topics[1]`.
pub open spec fn v2_token0(log: Log) -> Seq<u8> {
    log.topics@[1]@.subrange(12, 32)
}

/// `token1` of a `PairCreated` log: the low 20 bytes of `topics[2]`.
pub open spec fn v2_token1(log: Log) -> Seq<u8> {
    log.topics@[2]@.subrange(12, 32)
}

/// The pair address of a `PairCreated` log: the low 20 bytes of the first
/// 32-byte data word.
pub open spec fn v2_pair(log: Log) -> Seq<u8> {
    log.data@.subrange(12, 32)
}

/// A decoded UniswapV2 `PairCreated` event.
#[derive(Debug)]
pub struct UniswapV2PairCreated {
    pub pair: Address,
    pub token0: Address,
    pub token1: Address,
}

impl UniswapV2PairCreated {
    pub open spec fn wf(&self) -> bool {
        self.pair.wf() && self.token0.wf() && self.token1.wf()
    }

    /// Decodes a `PairCreated` log: `token0` and `token1` from the indexed
    /// topics, the pair address from the first data word. A log with fewer
    /// than 3 topics or less than 32 data bytes is malformed.
    pub fn try_from(log: &Log) -> (r: Result<Self, DexError>)
        requires
            log.wf(),
        ensures
            match r {
                Ok(ev) => {
                    &&& v2_creation_ok(*log)
                    &&& ev.token0@ == v2_token0(*log)
                    &&& ev.token1@ == v2_token1(*log)
                    &&& ev.pair@ == v2_pair(*log)
                    &&& ev.wf()
                },
                Err(e) => !v2_creation_ok(*log) && e is MalformedLog,
            },
    {
        if log.topics.len() < 3 || log.data.len() < 32 {
            return Err(DexError::MalformedLog);
        }
        let token0 = Address::new(copy_range(&log.topics[1], 12, 32));
        let token1 = Address::new(copy_range(&log.topics[2], 12, 32));
        let pair = Address::new(copy_range(&log.data, 12, 32));
        Ok(UniswapV2PairCreated { pair, token0, token1 })
    }

    /// Builds the normalized pool for this creation event from the two
    /// resolved token decimal precisions.
    pub fn to_pool(&self, token0_decimals: u8, token1_decimals: u8) -> (r: Pool)
        requires
            self.wf(),
        ensures
            r@.protocol == Protocol::UniSwapV2,
            r@.pool == self.pair@,
            r@.tokens.len() == 2,
            r@.tokens[0] == (TokenV { address: self.token0@, decimals: token0_decimals }),
            r@.tokens[1] == (TokenV { address: self.token1@, decimals: token1_decimals }),
            r@.extra == (PoolExtra::UniSwapV2 { fee: 5 }),
            r.wf(),
    {
        let mut tokens: Vec<Token> = Vec::new();
        tokens.push(Token::new(&self.token0, token0_decimals));
        tokens.push(Token::new(&self.token1, token1_decimals));
        Pool {
            protocol: Protocol::UniSwapV2,
            pool: self.pair.clone(),
            tokens,
            extra: PoolExtra::UniSwapV2 { fee: 5 },
        }
    }
}

/// A decoded UniswapV2 `Swap` event: the pool, its two tokens, and the four
/// unsigned amounts in log order.
#[derive(Debug)]
pub struct UniswapV2SwapEvent {
    pub pool: Address,
    pub token0: Address,
    pub token1: Address,
    pub amount0_in: U256,
    pub amount1_in: U256,
    pub amount0_out: U256,
    pub amount1_out: U256,
}

impl UniswapV2SwapEvent {
    pub open spec fn wf(&self) -> bool {
        &&& self.pool.wf()
        &&& self.token0.wf()
        &&& self.token1.wf()
        &&& self.amount0_in.wf()
        &&& self.amount1_in.wf()
        &&& self.amount0_out.wf()
        &&& self.amount1_out.wf()
    }

    /// Decodes a UniswapV2 `Swap` log. The log itself carries only the pool
    /// address; the two token addresses are resolved by the caller through
    /// contract reads against the pool and handed in. The signature topic
    /// must match, and the data must hold the four 32-byte amount words
    /// `amount0In, amount1In, amount0Out, amount1Out`.
    pub fn try_from_log(log: &Log, token0: &Address, token1: &Address) -> (r: Result<
        Self,
        DexError,
    >)
        requires
            log.wf(),
            token0.wf(),
            token1.wf(),
        ensures
            match r {
                Ok(ev) => {
                    &&& log.topics@.len() >= 1
                    &&& log.topics@[0]@ == uniswap_v2_swap_topic()
                    &&& log.data@.len() >= 128
                    &&& ev.pool@ == log.address@
                    &&& ev.token0@ == token0@
                    &&& ev.token1@ == token1@
                    &&& ev.amount0_in@ == log.data@.subrange(0, 32)
                    &&& ev.amount1_in@ == log.data@.subrange(32, 64)
                    &&& ev.amount0_out@ == log.data@.subrange(64, 96)
                    &&& ev.amount1_out@ == log.data@.subrange(96, 128)
                    &&& ev.wf()
                },
                Err(e) => match e {
                    DexError::UnexpectedEventSignature => log.topics@.len() == 0 || log.topics@[0]@
                        != uniswap_v2_swap_topic(),
                    DexError::MalformedLog => log.topics@.len() >= 1 && log.topics@[0]@
                        == uniswap_v2_swap_topic() && log.data@.len() < 128,
                    _ => false,
                },
            },
    {
        let expected = uniswap_v2_swap_topic_bytes();
        if log.topics.len() == 0 || !crate::types::bytes_eq(&log.topics[0], &expected) {
            return Err(DexError::UnexpectedEventSignature);
        }
        if log.data.len() < 128 {
            return Err(DexError::MalformedLog);
        }
        Ok(UniswapV2SwapEvent {
            pool: log.address.clone(),
            token0: token0.clone(),
            token1: token1.clone(),
            amount0_in: U256::from_be_bytes(copy_range(&log.data, 0, 32)),
            amount1_in: U256::from_be_bytes(copy_range(&log.data, 32, 64)),
            amount0_out: U256::from_be_bytes(copy_range(&log.data, 64, 96)),
            amount1_out: U256::from_be_bytes(copy_range(&log.data, 96, 128)),
        })
    }
}

} // verus!
