//! UniswapV3-style decoding: the `PoolCreated` creation event with its
//! indexed fee, the `Swap` event with signed amounts and sign normalization,
//! and the factory event filter.

use vstd::prelude::*;
use crate::bytes::{be_u128_16, be_u32_3, be_val, copy_range, lemma_be_val_zero, neg_be, twos_complement_neg};
use crate::types::{Address, DexError, FilterSpec, Log, Pool, PoolExtra, Protocol, Token, TokenV, U256};

verus! {

/// The signature hash of the UniswapV3 `Swap` event.
pub open spec fn uniswap_v3_swap_topic() -> Seq<u8> {
    seq![
        0xc4u8, 0x20, 0x79, 0xf9, 0x4a, 0x63, 0x50, 0xd7, 0xe6, 0x23, 0x5f, 0x29, 0x17, 0x49, 0x24,
        0xf9, 0x28, 0xcc, 0x2a, 0xc8, 0x18, 0xeb, 0x64, 0xfe, 0xd8, 0x00, 0x4e, 0x11, 0x5f, 0xbc,
        0xca, 0x67,
    ]
}

/// The UniswapV3 factory contract address.
pub open spec fn uniswap_v3_factory_address() -> Seq<u8> {
    seq![
        0x1fu8, 0x98, 0x43, 0x1c, 0x8a, 0xd9, 0x85, 0x23, 0x63, 0x1a, 0xe4, 0xa5, 0x9f, 0x26, 0x73,
        0x46, 0xea, 0x31, 0xf9, 0x84,
    ]
}

/// The `PoolCreated` signature text used in the event filter.
pub open spec fn uniswap_v3_creation_event_text() -> Seq<char> {
    "PoolCreated(address,address,uint24,int24,address)"@
}

/// The UniswapV3 `Swap` signature hash, as bytes.
pub fn uniswap_v3_swap_topic_bytes() -> (r: Vec<u8>)
    ensures
        r@ == uniswap_v3_swap_topic(),
{
    let mut r: Vec<u8> = Vec::new();
    r.push(0xc4);
    r.push(0x20);
    r.push(0x79);
    r.push(0xf9);
    r.push(0x4a);
    r.push(0x63);
    r.push(0x50);
    r.push(0xd7);
    r.push(0xe6);
    r.push(0x23);
    r.push(0x5f);
    r.push(0x29);
    r.push(0x17);
    r.push(0x49);
    r.push(0x24);
    r.push(0xf9);
    r.push(0x28);
    r.push(0xcc);
    r.push(0x2a);
    r.push(0xc8);
    r.push(0x18);
    r.push(0xeb);
    r.push(0x64);
    r.push(0xfe);
    r.push(0xd8);
    r.push(0x00);
    r.push(0x4e);
    r.push(0x11);
    r.push(0x5f);
    r.push(0xbc);
    r.push(0xca);
    r.push(0x67);
    proof {
        assert(r@ =~= uniswap_v3_swap_topic());
    }
    r
}

/// The UniswapV3 factory address, as bytes.
pub fn uniswap_v3_factory() -> (r: Address)
    ensures
        r@ == uniswap_v3_factory_address(),
        r.wf(),
{
    let mut b: Vec<u8> = Vec::new();
    b.push(0x1f);
    b.push(0x98);
    b.push(0x43);
    b.push(0x1c);
    b.push(0x8a);
    b.push(0xd9);
    b.push(0x85);
    b.push(0x23);
    b.push(0x63);
    b.push(0x1a);
    b.push(0xe4);
    b.push(0xa5);
    b.push(0x9f);
    b.push(0x26);
    b.push(0x73);
    b.push(0x46);
    b.push(0xea);
    b.push(0x31);
    b.push(0xf9);
    b.push(0x84);
    proof {
        assert(b@ =~= uniswap_v3_factory_address());
    }
    Address::new(b)
}

/// The filter that watches the UniswapV3 factory for `PoolCreated` events
/// from `block` on, with no upper bound.
pub fn uniswapv3_event_filter(block: u64) -> (r: FilterSpec)
    ensures
        r.address@ == uniswap_v3_factory_address(),
        r.event@ == uniswap_v3_creation_event_text(),
        r.from_block == block,
{
    FilterSpec {
        address: uniswap_v3_factory(),
        event: String::from_str("PoolCreated(address,address,uint24,int24,address)"),
        from_block: block,
    }
}

/// True when a log has enough topics and data to decode a `PoolCreated`
/// event: the fee sits in `topics[3]` and the pool address in the second
/// 32-byte data word.
pub open spec fn v3_creation_ok(log: Log) -> bool {
    log.topics@.len() >= 4 && log.data@.len() >= 64
}

/// `token0` of a `PoolCreated` log: the low 20 bytes of `topics[1]`.
pub open spec fn v3_token0(log: Log) -> Seq<u8> {
    log.topics@[1]@.subrange(12, 32)
}

/// `token1` of a `PoolCreated` log: the low 20 bytes of `topics[2]`.
pub open spec fn v3_token1(log: Log) -> Seq<u8> {
    log.topics@[2]@.subrange(12, 32)
}

/// The fee of a `PoolCreated` log: the big-endian uint24 right-aligned in
/// `topics[3]`.
pub open spec fn v3_fee(log: Log) -> nat {
    be_val(log.topics@[3]@.subrange(29, 32))
}

/// The pool address of a `PoolCreated` log: the low 20 bytes of the second
/// 32-byte data word (the first word holds `tickSpacing`).
pub open spec fn v3_pool(log: Log) -> Seq<u8> {
    log.data@.subrange(44, 64)
}

/// A decoded UniswapV3 `PoolCreated` event.
#[derive(Debug)]
pub struct UniswapV3PoolCreated {
    pub pool: Address,
    pub token0: Address,
    pub token1: Address,
    pub fee: u32,
}

impl UniswapV3PoolCreated {
    pub open spec fn wf(&self) -> bool {
        self.pool.wf() && self.token0.wf() && self.token1.wf()
    }

    /// Decodes a `PoolCreated` log: tokens from the indexed topics, the fee
    /// from the low 3 bytes of `topics[3]`, the pool address from the second
    /// data word. A log with fewer than 4 topics or less than 64 data bytes
    /// is malformed.
    pub fn try_from(log: &Log) -> (r: Result<Self, DexError>)
        requires
            log.wf(),
        ensures
            match r {
                Ok(ev) => {
                    &&& v3_creation_ok(*log)
                    &&& ev.token0@ == v3_token0(*log)
                    &&& ev.token1@ == v3_token1(*log)
                    &&& ev.fee as nat == v3_fee(*log)
                    &&& ev.pool@ == v3_pool(*log)
                    &&& ev.wf()
                },
                Err(e) => !v3_creation_ok(*log) && e is MalformedLog,
            },
    {
        if log.topics.len() < 4 || log.data.len() < 64 {
            return Err(DexError::MalformedLog);
        }
        let token0 = Address::new(copy_range(&log.topics[1], 12, 32));
        let token1 = Address::new(copy_range(&log.topics[2], 12, 32));
        let fee = be_u32_3(&log.topics[3], 29);
        let pool = Address::new(copy_range(&log.data, 44, 64));
        Ok(UniswapV3PoolCreated { pool, token0, token1, fee })
    }

    /// Builds the normalized pool for this creation event from the two
    /// resolved token decimal precisions.
    pub fn to_pool(&self, token0_decimals: u8, token1_decimals: u8) -> (r: Pool)
        requires
            self.wf(),
        ensures
            r@.protocol == Protocol::UniSwapV3,
            r@.pool == self.pool@,
            r@.tokens.len() == 2,
            r@.tokens[0] == (TokenV { address: self.token0@, decimals: token0_decimals }),
            r@.tokens[1] == (TokenV { address: self.token1@, decimals: token1_decimals }),
            r@.extra == (PoolExtra::UniSwapV3 { fee: self.fee as u64 }),
            r.wf(),
    {
        let mut tokens: Vec<Token> = Vec::new();
        tokens.push(Token::new(&self.token0, token0_decimals));
        tokens.push(Token::new(&self.token1, token1_decimals));
        Pool {
            protocol: Protocol::UniSwapV3,
            pool: self.pool.clone(),
            tokens,
            extra: PoolExtra::UniSwapV3 { fee: self.fee as u64 },
        }
    }
}

/// The magnitude of the two's-complement negation of a word: zero stays
/// zero, any other value `v` becomes `256^len - v`.
pub open spec fn neg_val(s: Seq<u8>) -> nat {
    if be_val(s) == 0 {
        0
    } else {
        (crate::bytes::pow256(s.len()) - be_val(s)) as nat
    }
}

/// The sign bit of a 256-bit two's-complement word.
pub open spec fn sign_bit(s: Seq<u8>) -> bool {
    s.len() > 0 && s[0] >= 0x80
}

/// True when the word holds a strictly positive signed value.
pub open spec fn is_positive_signed(s: Seq<u8>) -> bool {
    !sign_bit(s) && be_val(s) != 0
}

/// Tests whether a 32-byte word holds a strictly positive signed value.
fn word_is_positive(w: &Vec<u8>) -> (r: bool)
    requires
        w@.len() == 32,
    ensures
        r == is_positive_signed(w@),
{
    if w[0] >= 0x80 {
        return false;
    }
    let mut i: usize = 0;
    while i < w.len()
        invariant
            i <= w@.len(),
            w@.len() == 32,
            w@[0] < 0x80,
            forall|j: int| 0 <= j < i ==> w@[j] == 0,
        decreases w@.len() - i,
    {
        if w[i] != 0 {
            proof {
                lemma_be_val_zero(w@);
                if be_val(w@) == 0 {
                    assert(w@[i as int] == 0);
                }
            }
            return true;
        }
        i = i + 1;
    }
    proof {
        lemma_be_val_zero(w@);
    }
    false
}

/// A decoded UniswapV3 `Swap` event after sign normalization: `amount0` and
/// `amount1` are non-negative magnitudes, and `token0_is_input` records
/// which side the pool received.
#[derive(Debug)]
pub struct UniswapV3SwapEvent {
    pub pool: Address,
    pub token0: Address,
    pub token1: Address,
    pub amount0: U256,
    pub amount1: U256,
    pub liquidity: u128,
    pub token0_is_input: bool,
}

impl UniswapV3SwapEvent {
    pub open spec fn wf(&self) -> bool {
        &&& self.pool.wf()
        &&& self.token0.wf()
        &&& self.token1.wf()
        &&& self.amount0.wf()
        &&& self.amount1.wf()
    }

    /// Decodes a UniswapV3 `Swap` log. The two token addresses are resolved
    /// by the caller through contract reads against the pool and handed in.
    /// The data holds the signed words `amount0`, `amount1`, then
    /// `sqrtPriceX96`, `liquidity` and `tick`; the amounts are emitted as
    /// non-negative magnitudes. A positive `amount0` means the pool received
    /// token0; otherwise token1 is the input side.
    pub fn try_from_log(log: &Log, token0: &Address, token1: &Address) -> (r: Result<
        Self,
        DexError,
    >)
        requires
            log.wf(),
            token0.wf(),
            token1.wf(),
        ensures
            match r {
                Ok(ev) => {
                    &&& log.topics@.len() >= 1
                    &&& log.topics@[0]@ == uniswap_v3_swap_topic()
                    &&& log.data@.len() >= 160
                    &&& ev.pool@ == log.address@
                    &&& ev.token0@ == token0@
                    &&& ev.token1@ == token1@
                    &&& ev.liquidity as nat == be_val(log.data@.subrange(112, 128))
                    &&& ev.token0_is_input == is_positive_signed(log.data@.subrange(0, 32))
                    &&& if is_positive_signed(log.data@.subrange(0, 32)) {
                        &&& ev.amount0@ == log.data@.subrange(0, 32)
                        &&& ev.amount1@ == neg_be(log.data@.subrange(32, 64))
                        &&& be_val(ev.amount0@) == be_val(log.data@.subrange(0, 32))
                        &&& be_val(ev.amount1@) == neg_val(log.data@.subrange(32, 64))
                    } else {
                        &&& ev.amount1@ == log.data@.subrange(32, 64)
                        &&& ev.amount0@ == neg_be(log.data@.subrange(0, 32))
                        &&& be_val(ev.amount1@) == be_val(log.data@.subrange(32, 64))
                        &&& be_val(ev.amount0@) == neg_val(log.data@.subrange(0, 32))
                    }
                    &&& ev.wf()
                },
                Err(e) => match e {
                    DexError::UnexpectedEventSignature => log.topics@.len() == 0 || log.topics@[0]@
                        != uniswap_v3_swap_topic(),
                    DexError::MalformedLog => log.topics@.len() >= 1 && log.topics@[0]@
                        == uniswap_v3_swap_topic() && log.data@.len() < 160,
                    _ => false,
                },
            },
    {
        let expected = uniswap_v3_swap_topic_bytes();
        if log.topics.len() == 0 || !crate::types::bytes_eq(&log.topics[0], &expected) {
            return Err(DexError::UnexpectedEventSignature);
        }
        if log.data.len() < 160 {
            return Err(DexError::MalformedLog);
        }
        let raw0 = copy_range(&log.data, 0, 32);
        let raw1 = copy_range(&log.data, 32, 64);
        let liquidity = be_u128_16(&log.data, 112);
        let token0_is_input = word_is_positive(&raw0);
        let (amount0, amount1) = if token0_is_input {
            let m1 = twos_complement_neg(&raw1);
            proof {
                crate::bytes::lemma_neg_be_val(raw1@);
            }
            (U256::from_be_bytes(raw0), U256::from_be_bytes(m1))
        } else {
            let m0 = twos_complement_neg(&raw0);
            proof {
                crate::bytes::lemma_neg_be_val(raw0@);
            }
            (U256::from_be_bytes(m0), U256::from_be_bytes(raw1))
        };
        Ok(UniswapV3SwapEvent {
            pool: log.address.clone(),
            token0: token0.clone(),
            token1: token1.clone(),
            amount0,
            amount1,
            liquidity,
            token0_is_input,
        })
    }
}

} // verus!
