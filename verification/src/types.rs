//! The normalized domain model: addresses, 256-bit words, tokens, pools,
//! protocols, swap events, raw logs, filters and the error taxonomy.

use vstd::prelude::*;
use crate::bytes::{be_val, copy_range};

verus! {

/// A 20-byte account or contract identifier. Equality is byte-exact.
#[derive(Debug)]
pub struct Address {
    pub bytes: Vec<u8>,
}

impl View for Address {
    type V = Seq<u8>;

    open spec fn view(&self) -> Seq<u8> {
        self.bytes@
    }
}

/// True when every byte of the address is zero.
pub open spec fn is_zero_address(a: Seq<u8>) -> bool {
    forall|i: int| 0 <= i < a.len() ==> a[i] == 0
}

impl Address {
    /// Well-formed: exactly 20 bytes.
    pub open spec fn wf(&self) -> bool {
        self@.len() == 20
    }

    pub fn new(bytes: Vec<u8>) -> (r: Address)
        requires
            bytes@.len() == 20,
        ensures
            r@ == bytes@,
            r.wf(),
    {
        Address { bytes }
    }

    /// The all-zero address, which stands for the chain's native asset.
    pub fn zero() -> (r: Address)
        ensures
            r.wf(),
            is_zero_address(r@),
    {
        let mut bytes: Vec<u8> = Vec::new();
        let mut i: usize = 0;
        while i < 20
            invariant
                i <= 20,
                bytes@.len() == i,
                forall|j: int| 0 <= j < i ==> bytes@[j] == 0,
            decreases 20 - i,
        {
            bytes.push(0);
            i = i + 1;
        }
        Address { bytes }
    }

    pub fn is_zero(&self) -> (r: bool)
        ensures
            r == is_zero_address(self@),
    {
        let mut i: usize = 0;
        while i < self.bytes.len()
            invariant
                i <= self@.len(),
                forall|j: int| 0 <= j < i ==> self@[j] == 0,
            decreases self@.len() - i,
        {
            if self.bytes[i] != 0 {
                return false;
            }
            i = i + 1;
        }
        true
    }
}

/// Byte-exact comparison of two byte vectors.
pub fn bytes_eq(a: &Vec<u8>, b: &Vec<u8>) -> (r: bool)
    ensures
        r <==> a@ == b@,
{
    if a.len() != b.len() {
        return false;
    }
    let mut i: usize = 0;
    while i < a.len()
        invariant
            a@.len() == b@.len(),
            i <= a@.len(),
            forall|j: int| 0 <= j < i ==> a@[j] == b@[j],
        decreases a@.len() - i,
    {
        if a[i] != b[i] {
            return false;
        }
        i = i + 1;
    }
    proof {
        assert(a@ =~= b@);
    }
    true
}

impl Clone for Address {
    fn clone(&self) -> (r: Self)
        ensures
            r@ == self@,
    {
        let len = self.bytes.len();
        let bytes = copy_range(&self.bytes, 0, len);
        proof {
            assert(bytes@ =~= self@);
        }
        Address { bytes }
    }
}

impl PartialEq for Address {
    fn eq(&self, other: &Self) -> bool {
        bytes_eq(&self.bytes, &other.bytes)
    }
}

impl vstd::std_specs::cmp::PartialEqSpecImpl for Address {
    open spec fn obeys_eq_spec() -> bool {
        true
    }

    open spec fn eq_spec(&self, other: &Self) -> bool {
        self@ == other@
    }
}

/// An unsigned 256-bit integer held as 32 big-endian bytes.
#[derive(Debug)]
pub struct U256 {
    pub bytes: Vec<u8>,
}

impl View for U256 {
    type V = Seq<u8>;

    open spec fn view(&self) -> Seq<u8> {
        self.bytes@
    }
}

impl U256 {
    pub open spec fn wf(&self) -> bool {
        self@.len() == 32
    }

    /// The numeric value of the word.
    pub open spec fn val(&self) -> nat {
        be_val(self@)
    }

    pub fn from_be_bytes(bytes: Vec<u8>) -> (r: U256)
        requires
            bytes@.len() == 32,
        ensures
            r@ == bytes@,
            r.wf(),
    {
        U256 { bytes }
    }
}

impl Clone for U256 {
    fn clone(&self) -> (r: Self)
        ensures
            r@ == self@,
    {
        let len = self.bytes.len();
        let bytes = copy_range(&self.bytes, 0, len);
        proof {
            assert(bytes@ =~= self@);
        }
        U256 { bytes }
    }
}

impl PartialEq for U256 {
    fn eq(&self, other: &Self) -> bool {
        bytes_eq(&self.bytes, &other.bytes)
    }
}

impl vstd::std_specs::cmp::PartialEqSpecImpl for U256 {
    open spec fn obeys_eq_spec() -> bool {
        true
    }

    open spec fn eq_spec(&self, other: &Self) -> bool {
        self@ == other@
    }
}

/// The abstract value of a `Token`.
pub struct TokenV {
    pub address: Seq<u8>,
    pub decimals: u8,
}

/// A token: its contract address and its resolved decimal precision.
#[derive(Debug)]
pub struct Token {
    pub token_address: Address,
    pub decimals: u8,
}

impl View for Token {
    type V = TokenV;

    open spec fn view(&self) -> TokenV {
        TokenV { address: self.token_address@, decimals: self.decimals }
    }
}

impl Token {
    pub open spec fn wf(&self) -> bool {
        self.token_address.wf()
    }

    pub fn new(token_address: &Address, decimals: u8) -> (r: Self)
        ensures
            r@.address == token_address@,
            r@.decimals == decimals,
    {
        Token { token_address: token_address.clone(), decimals }
    }
}

impl Clone for Token {
    fn clone(&self) -> (r: Self)
        ensures
            r@ == self@,
    {
        Token { token_address: self.token_address.clone(), decimals: self.decimals }
    }
}

/// Protocol-specific static parameters of a pool.
#[derive(Clone, Copy, Debug, PartialEq, Eq, Structural)]
pub enum PoolExtra {
    NoExtra,
    UniSwapV2 { fee: u64 },
    UniSwapV3 { fee: u64 },
}

/// The closed set of supported protocol families.
#[derive(Clone, Copy, Debug, PartialEq, Eq, Structural)]
pub enum Protocol {
    UniSwapV2,
    UniSwapV3,
}

/// The error taxonomy of the decoding and normalization layer.
#[derive(Debug)]
pub enum DexError {
    /// Structural decode failure: insufficient bytes or topics, or an
    /// unparseable numeric field.
    MalformedLog,
    /// The log's signature topic does not match the expected signature.
    UnexpectedEventSignature,
    /// The log's signature topic matches no known protocol.
    UnsupportedProtocol,
    /// A protocol display string that is not recognized.
    UnsupportedProtocolName,
    /// A text encoding that does not parse back into a pool.
    InvalidFormat,
    /// A contract read against `address` failed, or its result is not yet
    /// available in the resolver cache.
    RpcError { address: Address },
}

/// The abstract value of a `Pool`.
pub struct PoolV {
    pub protocol: Protocol,
    pub pool: Seq<u8>,
    pub tokens: Seq<TokenV>,
    pub extra: PoolExtra,
}

/// A normalized liquidity pool. Equality is defined solely by the pool
/// address: two pools with the same address are equal regardless of their
/// token list or extra contents.
#[derive(Debug)]
pub struct Pool {
    pub protocol: Protocol,
    pub pool: Address,
    pub tokens: Vec<Token>,
    pub extra: PoolExtra,
}

impl View for Pool {
    type V = PoolV;

    open spec fn view(&self) -> PoolV {
        PoolV {
            protocol: self.protocol,
            pool: self.pool@,
            tokens: self.tokens@.map_values(|t: Token| t@),
            extra: self.extra,
        }
    }
}

impl Clone for Pool {
    fn clone(&self) -> (r: Self)
        ensures
            r@ == self@,
    {
        let mut tokens: Vec<Token> = Vec::new();
        let mut i: usize = 0;
        while i < self.tokens.len()
            invariant
                i <= self.tokens@.len(),
                tokens@.len() == i,
                forall|j: int| 0 <= j < i ==> tokens@[j]@ == self.tokens@[j]@,
            decreases self.tokens@.len() - i,
        {
            tokens.push(self.tokens[i].clone());
            i = i + 1;
        }
        proof {
            assert(tokens@.map_values(|t: Token| t@) =~= self.tokens@.map_values(|t: Token| t@));
        }
        Pool { protocol: self.protocol, pool: self.pool.clone(), tokens, extra: self.extra }
    }
}

impl PartialEq for Pool {
    fn eq(&self, other: &Self) -> bool {
        self.pool == other.pool
    }
}

impl vstd::std_specs::cmp::PartialEqSpecImpl for Pool {
    open spec fn obeys_eq_spec() -> bool {
        true
    }

    open spec fn eq_spec(&self, other: &Self) -> bool {
        self.pool@ == other.pool@
    }
}

/// The view of one ordered address pair.
pub open spec fn pair_view(p: (Address, Address)) -> (Seq<u8>, Seq<u8>) {
    (p.0@, p.1@)
}

/// The pairs whose first member is `toks[i]`, in position order.
pub open spec fn pairs_with(toks: Seq<TokenV>, i: int) -> Seq<(Seq<u8>, Seq<u8>)> {
    Seq::new((toks.len() - i - 1) as nat, |j: int| (toks[i].address, toks[i + 1 + j].address))
}

/// All ordered pairs among `toks` whose first member sits before position `i`.
pub open spec fn pairs_upto(toks: Seq<TokenV>, i: int) -> Seq<(Seq<u8>, Seq<u8>)>
    decreases i,
{
    if i <= 0 {
        Seq::empty()
    } else {
        pairs_upto(toks, i - 1) + pairs_with(toks, i - 1)
    }
}

/// All unordered token-address pairs of a pool, as the nested position scan
/// produces them.
pub open spec fn token01_pairs(toks: Seq<TokenV>) -> Seq<(Seq<u8>, Seq<u8>)> {
    pairs_upto(toks, toks.len() as int)
}

impl Pool {
    /// Well-formed: a 20-byte pool address and at least two well-formed tokens.
    pub open spec fn wf(&self) -> bool {
        &&& self.pool.wf()
        &&& self.tokens@.len() >= 2
        &&& forall|i: int| 0 <= i < self.tokens@.len() ==> (#[trigger] self.tokens@[i]).wf()
    }

    /// The address of the first token.
    pub fn token0_type(&self) -> (r: Address)
        requires
            self.tokens@.len() >= 1,
        ensures
            r@ == self@.tokens[0].address,
    {
        self.tokens[0].token_address.clone()
    }

    /// The address of the second token.
    pub fn token1_type(&self) -> (r: Address)
        requires
            self.tokens@.len() >= 2,
        ensures
            r@ == self@.tokens[1].address,
    {
        self.tokens[1].token_address.clone()
    }

    pub fn token_count(&self) -> (r: usize)
        ensures
            r == self@.tokens.len(),
    {
        self.tokens.len()
    }

    /// The first position holding `token_address`, if any.
    pub fn token_index(&self, token_address: &Address) -> (r: Option<usize>)
        ensures
            match r {
                Some(i) => {
                    &&& 0 <= i < self@.tokens.len()
                    &&& self@.tokens[i as int].address == token_address@
                    &&& forall|j: int|
                        0 <= j < i ==> (#[trigger] self@.tokens[j]).address != token_address@
                },
                None => forall|j: int|
                    0 <= j < self@.tokens.len() ==> (#[trigger] self@.tokens[j]).address
                        != token_address@,
            },
    {
        let mut i: usize = 0;
        while i < self.tokens.len()
            invariant
                i <= self.tokens@.len(),
                forall|j: int| 0 <= j < i ==> (#[trigger] self@.tokens[j]).address != token_address@,
            decreases self.tokens@.len() - i,
        {
            if bytes_eq(&self.tokens[i].token_address.bytes, &token_address.bytes) {
                return Some(i);
            }
            i = i + 1;
        }
        None
    }

    /// The token at `index`, or nothing past the end.
    pub fn token(&self, index: usize) -> (r: Option<Token>)
        ensures
            match r {
                Some(t) => index < self@.tokens.len() && t@ == self@.tokens[index as int],
                None => index >= self@.tokens.len(),
            },
    {
        if index < self.tokens.len() {
            Some(self.tokens[index].clone())
        } else {
            None
        }
    }

    /// All unordered pairs among the token list, as `(earlier, later)`
    /// address pairs in position order.
    pub fn token01_pair(&self) -> (r: Vec<(Address, Address)>)
        ensures
            r@.len() == token01_pairs(self@.tokens).len(),
            forall|k: int|
                0 <= k < r@.len() ==> pair_view(#[trigger] r@[k]) == token01_pairs(self@.tokens)[k],
    {
        let ghost tv = self@.tokens;
        let n = self.tokens.len();
        let mut pairs: Vec<(Address, Address)> = Vec::new();
        let mut i: usize = 0;
        while i < n
            invariant
                n == tv.len(),
                tv == self@.tokens,
                i <= n,
                pairs@.len() == pairs_upto(tv, i as int).len(),
                forall|k: int|
                    0 <= k < pairs@.len() ==> pair_view(#[trigger] pairs@[k])
                        == pairs_upto(tv, i as int)[k],
            decreases n - i,
        {
            let ghost done = pairs_upto(tv, i as int);
            let mut j = i + 1;
            while j < n
                invariant
                    n == tv.len(),
                    tv == self@.tokens,
                    i < n,
                    i + 1 <= j <= n,
                    done == pairs_upto(tv, i as int),
                    pairs@.len() == done.len() + (j - i - 1),
                    forall|k: int|
                        0 <= k < done.len() ==> pair_view(#[trigger] pairs@[k]) == done[k],
                    forall|k: int|
                        done.len() <= k < pairs@.len() ==> pair_view(#[trigger] pairs@[k])
                            == pairs_with(tv, i as int)[k - done.len()],
                decreases n - j,
            {
                pairs.push(
                    (self.tokens[i].token_address.clone(), self.tokens[j].token_address.clone()),
                );
                j = j + 1;
            }
            proof {
                assert(pairs_upto(tv, i + 1) == pairs_upto(tv, i as int) + pairs_with(tv, i as int));
                assert forall|k: int| 0 <= k < pairs@.len() implies pair_view(#[trigger] pairs@[k])
                    == pairs_upto(tv, i + 1)[k] by {
                    if k < done.len() {
                        assert(pairs_upto(tv, i + 1)[k] == done[k]);
                    } else {
                        assert(pairs_upto(tv, i + 1)[k] == pairs_with(tv, i as int)[k - done.len()]);
                    }
                }
            }
            i = i + 1;
        }
        pairs
    }
}

/// A protocol-agnostic swap event: the pool, which coins went in and out,
/// and their amounts.
#[derive(Debug)]
pub struct SwapEvent {
    pub protocol: Protocol,
    pub pool: Option<Address>,
    pub coin_in: Vec<Address>,
    pub coin_out: Vec<Address>,
    pub amounts_in: Vec<u64>,
    pub amounts_out: Vec<u64>,
}

impl SwapEvent {
    pub fn pool_address(&self) -> (r: Option<Address>)
        ensures
            match r {
                Some(a) => self.pool is Some && a@ == self.pool->0@,
                None => self.pool is None,
            },
    {
        match &self.pool {
            Some(a) => Some(a.clone()),
            None => None,
        }
    }
}

/// An immutable chain log record, as the external log source hands it in:
/// the emitting contract, the 32-byte topics (index 0 is the event signature
/// hash), the ABI-encoded data buffer, and the block number.
#[derive(Debug)]
pub struct Log {
    pub address: Address,
    pub topics: Vec<Vec<u8>>,
    pub data: Vec<u8>,
    pub block_number: u64,
}

impl Log {
    /// Well-formed: a 20-byte emitter address and 32-byte topics. The number
    /// of topics and the data length are not constrained here; the decoders
    /// check them and reject short logs.
    pub open spec fn wf(&self) -> bool {
        &&& self.address.wf()
        &&& forall|i: int| 0 <= i < self.topics@.len() ==> (#[trigger] self.topics@[i])@.len() == 32
    }
}

/// A chain log-query descriptor: the factory contract to watch, the
/// creation-event signature text, and the starting block (open-ended above).
#[derive(Debug)]
pub struct FilterSpec {
    pub address: Address,
    pub event: String,
    pub from_block: u64,
}

} // verus!
