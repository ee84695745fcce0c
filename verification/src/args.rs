//! The argument surface of the indexing binary, as plain data. The binary
//! parses its command line into these values; only their shape and defaults
//! live here.

use vstd::prelude::*;

verus! {

/// The default RPC endpoint.
pub open spec fn default_rpc_url() -> Seq<char> {
    "http://127.0.0.1:8545"@
}

/// Connection endpoints for the chain node.
#[derive(Debug)]
pub struct HttpConfig {
    pub rpc_url: String,
    pub ipc_url: String,
}

impl Default for HttpConfig {
    fn default() -> (r: Self)
        ensures
            r.rpc_url@ == default_rpc_url(),
            r.ipc_url@.len() == 0,
    {
        HttpConfig { rpc_url: String::from_str("http://127.0.0.1:8545"), ipc_url: String::new() }
    }
}

/// What the binary was asked to do.
#[derive(Debug)]
pub enum Command {
    /// Index pool-creation events and print the pools found.
    Pools(HttpConfig),
}

/// The parsed command line.
#[derive(Debug)]
pub struct Args {
    pub command: Command,
}

} // verus!
