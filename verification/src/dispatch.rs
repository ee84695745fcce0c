//! Protocol dispatch: mapping a log's signature topic to the protocol that
//! owns it, and forwarding filter construction and pool building to the
//! matching decoder. Every protocol's swap signature is distinct; a topic
//! that matches none is rejected, never matched to the wrong protocol.

use vstd::prelude::*;
use crate::resolver::{get_coin_decimals, spec_decimals, DecimalsResolver};
use crate::types::{bytes_eq, DexError, FilterSpec, Log, Pool, PoolExtra, Protocol, TokenV};
use crate::uniswapv2::{
    uniswap_v2_creation_event_text, uniswap_v2_factory_address, uniswap_v2_swap_topic,
    uniswap_v2_swap_topic_bytes, uniswapv2_event_filter, v2_creation_ok, v2_pair, v2_token0,
    v2_token1, UniswapV2PairCreated,
};
use crate::uniswapv3::{
    uniswap_v3_creation_event_text, uniswap_v3_factory_address, uniswap_v3_swap_topic,
    uniswap_v3_swap_topic_bytes, uniswapv3_event_filter, v3_creation_ok, v3_fee, v3_pool,
    v3_token0, v3_token1, UniswapV3PoolCreated,
};

verus! {

/// A decoded creation event of any supported protocol.
#[derive(Debug)]
pub enum CreationEvent {
    PairCreated(UniswapV2PairCreated),
    PoolCreated(UniswapV3PoolCreated),
}

impl Protocol {
    /// Maps a swap signature topic to the protocol that owns it. The two
    /// known signatures are distinct; any other topic is unsupported.
    pub fn try_from_event_topic(topic: &Vec<u8>) -> (r: Result<Protocol, DexError>)
        ensures
            match r {
                Ok(p) => (topic@ == uniswap_v2_swap_topic() && p == Protocol::UniSwapV2) || (topic@
                    == uniswap_v3_swap_topic() && p == Protocol::UniSwapV3),
                Err(e) => topic@ != uniswap_v2_swap_topic() && topic@ != uniswap_v3_swap_topic()
                    && e is UnsupportedProtocol,
            },
    {
        let v2 = uniswap_v2_swap_topic_bytes();
        if bytes_eq(topic, &v2) {
            return Ok(Protocol::UniSwapV2);
        }
        let v3 = uniswap_v3_swap_topic_bytes();
        if bytes_eq(topic, &v3) {
            return Ok(Protocol::UniSwapV3);
        }
        Err(DexError::UnsupportedProtocol)
    }

    /// Dispatches a log by its signature topic, `topics[0]`.
    pub fn try_from_log(log: &Log) -> (r: Result<Protocol, DexError>)
        ensures
            match r {
                Ok(p) => log.topics@.len() >= 1 && ((log.topics@[0]@ == uniswap_v2_swap_topic()
                    && p == Protocol::UniSwapV2) || (log.topics@[0]@ == uniswap_v3_swap_topic()
                    && p == Protocol::UniSwapV3)),
                Err(e) => match e {
                    DexError::MalformedLog => log.topics@.len() == 0,
                    DexError::UnsupportedProtocol => log.topics@.len() >= 1 && log.topics@[0]@
                        != uniswap_v2_swap_topic() && log.topics@[0]@ != uniswap_v3_swap_topic(),
                    _ => false,
                },
            },
    {
        if log.topics.len() == 0 {
            return Err(DexError::MalformedLog);
        }
        Protocol::try_from_event_topic(&log.topics[0])
    }

    /// The creation-event filter of this protocol, from `block` on.
    pub fn event_filter(&self, block: u64) -> (r: FilterSpec)
        ensures
            r.from_block == block,
            match self {
                Protocol::UniSwapV2 => r.address@ == uniswap_v2_factory_address() && r.event@
                    == uniswap_v2_creation_event_text(),
                Protocol::UniSwapV3 => r.address@ == uniswap_v3_factory_address() && r.event@
                    == uniswap_v3_creation_event_text(),
            },
    {
        match self {
            Protocol::UniSwapV2 => uniswapv2_event_filter(block),
            Protocol::UniSwapV3 => uniswapv3_event_filter(block),
        }
    }

    /// Decodes a creation log of this protocol.
    pub fn decode_creation_log(&self, log: &Log) -> (r: Result<CreationEvent, DexError>)
        requires
            log.wf(),
        ensures
            match r {
                Ok(ev) => match ev {
                    CreationEvent::PairCreated(e) => {
                        &&& *self == Protocol::UniSwapV2
                        &&& v2_creation_ok(*log)
                        &&& e.token0@ == v2_token0(*log)
                        &&& e.token1@ == v2_token1(*log)
                        &&& e.pair@ == v2_pair(*log)
                        &&& e.wf()
                    },
                    CreationEvent::PoolCreated(e) => {
                        &&& *self == Protocol::UniSwapV3
                        &&& v3_creation_ok(*log)
                        &&& e.token0@ == v3_token0(*log)
                        &&& e.token1@ == v3_token1(*log)
                        &&& e.fee as nat == v3_fee(*log)
                        &&& e.pool@ == v3_pool(*log)
                        &&& e.wf()
                    },
                },
                Err(e) => {
                    &&& e is MalformedLog
                    &&& (*self == Protocol::UniSwapV2 ==> !v2_creation_ok(*log))
                    &&& (*self == Protocol::UniSwapV3 ==> !v3_creation_ok(*log))
                },
            },
    {
        match self {
            Protocol::UniSwapV2 => match UniswapV2PairCreated::try_from(log) {
                Ok(ev) => Ok(CreationEvent::PairCreated(ev)),
                Err(e) => Err(e),
            },
            Protocol::UniSwapV3 => match UniswapV3PoolCreated::try_from(log) {
                Ok(ev) => Ok(CreationEvent::PoolCreated(ev)),
                Err(e) => Err(e),
            },
        }
    }

    /// Decodes a creation log and builds the normalized pool, resolving both
    /// token decimal precisions from the resolver's current state. A token
    /// whose decimals are not yet available is reported as `RpcError` with
    /// that token's address (`token0` checked first); the caller completes
    /// the read and retries.
    pub fn eth_event_to_pool(&self, log: &Log, resolver: &DecimalsResolver) -> (r: Result<
        Pool,
        DexError,
    >)
        requires
            log.wf(),
            resolver.inv(),
        ensures
            match r {
                Ok(p) => match self {
                    Protocol::UniSwapV2 => {
                        &&& v2_creation_ok(*log)
                        &&& p@.protocol == Protocol::UniSwapV2
                        &&& p@.pool == v2_pair(*log)
                        &&& p@.tokens.len() == 2
                        &&& spec_decimals(*resolver, v2_token0(*log)) matches Some(d0)
                            && p@.tokens[0] == (TokenV { address: v2_token0(*log), decimals: d0 })
                        &&& spec_decimals(*resolver, v2_token1(*log)) matches Some(d1)
                            && p@.tokens[1] == (TokenV { address: v2_token1(*log), decimals: d1 })
                        &&& p@.extra == (PoolExtra::UniSwapV2 { fee: 5 })
                        &&& p.wf()
                    },
                    Protocol::UniSwapV3 => {
                        &&& v3_creation_ok(*log)
                        &&& p@.protocol == Protocol::UniSwapV3
                        &&& p@.pool == v3_pool(*log)
                        &&& p@.tokens.len() == 2
                        &&& spec_decimals(*resolver, v3_token0(*log)) matches Some(d0)
                            && p@.tokens[0] == (TokenV { address: v3_token0(*log), decimals: d0 })
                        &&& spec_decimals(*resolver, v3_token1(*log)) matches Some(d1)
                            && p@.tokens[1] == (TokenV { address: v3_token1(*log), decimals: d1 })
                        &&& p@.extra == (PoolExtra::UniSwapV3 { fee: v3_fee(*log) as u64 })
                        &&& p.wf()
                    },
                },
                Err(e) => match self {
                    Protocol::UniSwapV2 => match e {
                        DexError::MalformedLog => !v2_creation_ok(*log),
                        DexError::RpcError { address } => v2_creation_ok(*log) && ((spec_decimals(
                            *resolver,
                            v2_token0(*log),
                        ) is None && address@ == v2_token0(*log)) || (spec_decimals(
                            *resolver,
                            v2_token0(*log),
                        ) is Some && spec_decimals(*resolver, v2_token1(*log)) is None && address@
                            == v2_token1(*log))),
                        _ => false,
                    },
                    Protocol::UniSwapV3 => match e {
                        DexError::MalformedLog => !v3_creation_ok(*log),
                        DexError::RpcError { address } => v3_creation_ok(*log) && ((spec_decimals(
                            *resolver,
                            v3_token0(*log),
                        ) is None && address@ == v3_token0(*log)) || (spec_decimals(
                            *resolver,
                            v3_token0(*log),
                        ) is Some && spec_decimals(*resolver, v3_token1(*log)) is None && address@
                            == v3_token1(*log))),
                        _ => false,
                    },
                },
            },
    {
        match self {
            Protocol::UniSwapV2 => {
                let ev = match UniswapV2PairCreated::try_from(log) {
                    Ok(ev) => ev,
                    Err(e) => {
                        return Err(e);
                    },
                };
                let d0 = match get_coin_decimals(resolver, &ev.token0) {
                    Some(d) => d,
                    None => {
                        return Err(DexError::RpcError { address: ev.token0 });
                    },
                };
                let d1 = match get_coin_decimals(resolver, &ev.token1) {
                    Some(d) => d,
                    None => {
                        return Err(DexError::RpcError { address: ev.token1 });
                    },
                };
                Ok(ev.to_pool(d0, d1))
            },
            Protocol::UniSwapV3 => {
                let ev = match UniswapV3PoolCreated::try_from(log) {
                    Ok(ev) => ev,
                    Err(e) => {
                        return Err(e);
                    },
                };
                let d0 = match get_coin_decimals(resolver, &ev.token0) {
                    Some(d) => d,
                    None => {
                        return Err(DexError::RpcError { address: ev.token0 });
                    },
                };
                let d1 = match get_coin_decimals(resolver, &ev.token1) {
                    Some(d) => d,
                    None => {
                        return Err(DexError::RpcError { address: ev.token1 });
                    },
                };
                Ok(ev.to_pool(d0, d1))
            },
        }
    }
}

} // verus!
