//! Decoding and normalization of automated-market-maker event logs.
//!
//! Raw chain logs are decoded per protocol family into creation and swap
//! events, normalized into `Pool` entities, and serialized to a canonical
//! text format. Token decimal precision is resolved through a memoized,
//! single-flight cache. All byte-level decoding and the registry entities
//! are verified; network reads and other I/O live outside this crate and
//! hand plain values in.

pub mod args;
pub mod bytes;
pub mod types;
pub mod uniswapv2;
pub mod uniswapv3;
pub mod resolver;
pub mod dispatch;
pub mod text;
pub mod version;
