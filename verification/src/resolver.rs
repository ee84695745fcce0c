//! The token-decimals resolver: a process-wide, write-once-per-key cache
//! with single-flight coalescing of concurrent lookups. The network read
//! itself is performed by the caller between `request` and `complete`; the
//! decisions — serve from the cache, wait for an in-flight read, or start
//! one — are made here.

use vstd::prelude::*;
use crate::types::{Address, bytes_eq, is_zero_address};

verus! {

/// The canonical wrapped-native-token contract address. It and the zero
/// address stand for the chain's native asset and resolve to 18 decimals
/// without a contract read.
pub open spec fn wrapped_native_address() -> Seq<u8> {
    seq![
        0xc0u8, 0x2a, 0xaa, 0x39, 0xb2, 0x23, 0xfe, 0x8d, 0x0a, 0x0e, 0x5c, 0x4f, 0x27, 0xea, 0xd9,
        0x08, 0x3c, 0x75, 0x6c, 0xc2,
    ]
}

/// Addresses that resolve to 18 decimals with no network call.
pub open spec fn is_special_address(a: Seq<u8>) -> bool {
    is_zero_address(a) || a == wrapped_native_address()
}

/// The wrapped-native-token address, as bytes.
pub fn wrapped_native() -> (r: Address)
    ensures
        r@ == wrapped_native_address(),
        r.wf(),
{
    let mut b: Vec<u8> = Vec::new();
    b.push(0xc0);
    b.push(0x2a);
    b.push(0xaa);
    b.push(0x39);
    b.push(0xb2);
    b.push(0x23);
    b.push(0xfe);
    b.push(0x8d);
    b.push(0x0a);
    b.push(0x0e);
    b.push(0x5c);
    b.push(0x4f);
    b.push(0x27);
    b.push(0xea);
    b.push(0xd9);
    b.push(0x08);
    b.push(0x3c);
    b.push(0x75);
    b.push(0x6c);
    b.push(0xc2);
    proof {
        assert(b@ =~= wrapped_native_address());
    }
    Address::new(b)
}

/// Tests whether `a` is one of the special addresses.
pub fn is_special(a: &Address) -> (r: bool)
    ensures
        r == is_special_address(a@),
{
    if a.is_zero() {
        return true;
    }
    let w = wrapped_native();
    bytes_eq(&a.bytes, &w.bytes)
}

/// The cache contents of an entry list, later entries winning. With unique
/// keys the order cannot matter.
pub open spec fn entries_map(s: Seq<(Address, u8)>) -> Map<Seq<u8>, u8>
    decreases s.len(),
{
    if s.len() == 0 {
        Map::empty()
    } else {
        entries_map(s.drop_last()).insert(s.last().0@, s.last().1)
    }
}

/// No two entries share a key.
pub open spec fn keys_unique(s: Seq<(Address, u8)>) -> bool {
    forall|i: int, j: int| 0 <= i < j < s.len() ==> s[i].0@ != s[j].0@
}

/// Every key of the entry list is in the map, with its entry's value, and
/// the map holds no other key.
pub proof fn lemma_entries_map(s: Seq<(Address, u8)>)
    requires
        keys_unique(s),
    ensures
        forall|i: int|
            0 <= i < s.len() ==> entries_map(s).contains_key((#[trigger] s[i]).0@)
                && entries_map(s)[s[i].0@] == s[i].1,
        forall|a: Seq<u8>|
            entries_map(s).contains_key(a) ==> exists|i: int| 0 <= i < s.len() && (#[trigger] s[i]).0@
                == a,
    decreases s.len(),
{
    if s.len() > 0 {
        assert(forall|i: int, j: int|
            0 <= i < j < s.len() - 1 ==> (#[trigger] s.drop_last()[i]).0@
                != (#[trigger] s.drop_last()[j]).0@);
        lemma_entries_map(s.drop_last());
        assert forall|i: int| 0 <= i < s.len() implies entries_map(s).contains_key(
            (#[trigger] s[i]).0@,
        ) && entries_map(s)[s[i].0@] == s[i].1 by {
            if i < s.len() - 1 {
                assert(s.drop_last()[i] == s[i]);
                assert(s[i].0@ != s.last().0@);
            }
        }
        assert forall|a: Seq<u8>| entries_map(s).contains_key(a) implies exists|i: int|
            0 <= i < s.len() && (#[trigger] s[i]).0@ == a by {
            if a == s.last().0@ {
                assert(s[s.len() - 1].0@ == a);
            } else {
                assert(entries_map(s.drop_last()).contains_key(a));
                let i = choose|i: int|
                    0 <= i < s.drop_last().len() && (#[trigger] s.drop_last()[i]).0@ == a;
                assert(s.drop_last()[i] == s[i]);
                assert(0 <= i < s.len() && s[i].0@ == a);
            }
        }
    }
}

/// What the caller of `request` should do next.
#[derive(Debug, PartialEq, Eq, Structural)]
pub enum DecimalsStep {
    /// The decimals are known; no network call is needed.
    Resolved(u8),
    /// Another caller's read for this address is in flight; wait for it.
    Wait,
    /// No value and no in-flight read: this caller performs the single read
    /// and reports back through `complete`.
    Fetch,
}

/// The memoized decimals resolver: resolved values and the set of addresses
/// with an in-flight contract read.
pub struct DecimalsResolver {
    entries: Vec<(Address, u8)>,
    pending: Vec<Address>,
}

impl DecimalsResolver {
    /// The resolved cache contents.
    pub closed spec fn cached(&self) -> Map<Seq<u8>, u8> {
        entries_map(self.entries@)
    }

    /// True when a read for `a` is in flight.
    pub closed spec fn is_pending(&self, a: Seq<u8>) -> bool {
        exists|i: int| 0 <= i < self.pending@.len() && (#[trigger] self.pending@[i])@ == a
    }

    /// Internal invariant: cache keys and pending addresses are unique.
    pub closed spec fn inv(&self) -> bool {
        &&& keys_unique(self.entries@)
        &&& forall|i: int, j: int|
            0 <= i < j < self.pending@.len() ==> (#[trigger] self.pending@[i])@
                != (#[trigger] self.pending@[j])@
    }

    pub fn new() -> (r: Self)
        ensures
            r.inv(),
            r.cached() == Map::<Seq<u8>, u8>::empty(),
            forall|a: Seq<u8>| !r.is_pending(a),
    {
        DecimalsResolver { entries: Vec::new(), pending: Vec::new() }
    }

    /// Scans the cache for `addr`.
    fn find_entry(&self, addr: &Address) -> (r: Option<u8>)
        requires
            self.inv(),
        ensures
            match r {
                Some(d) => self.cached().contains_key(addr@) && self.cached()[addr@] == d,
                None => !self.cached().contains_key(addr@),
            },
    {
        proof {
            lemma_entries_map(self.entries@);
        }
        let mut i: usize = 0;
        while i < self.entries.len()
            invariant
                self.inv(),
                i <= self.entries@.len(),
                forall|j: int| 0 <= j < i ==> (#[trigger] self.entries@[j]).0@ != addr@,
                forall|j: int|
                    0 <= j < self.entries@.len() ==> entries_map(self.entries@).contains_key(
                        (#[trigger] self.entries@[j]).0@,
                    ) && entries_map(self.entries@)[self.entries@[j].0@] == self.entries@[j].1,
                forall|a: Seq<u8>|
                    entries_map(self.entries@).contains_key(a) ==> exists|j: int|
                        0 <= j < self.entries@.len() && (#[trigger] self.entries@[j]).0@ == a,
            decreases self.entries@.len() - i,
        {
            if bytes_eq(&self.entries[i].0.bytes, &addr.bytes) {
                return Some(self.entries[i].1);
            }
            i = i + 1;
        }
        None
    }

    /// Scans the pending list for `addr`.
    fn find_pending(&self, addr: &Address) -> (r: Option<usize>)
        ensures
            match r {
                Some(i) => i < self.pending@.len() && self.pending@[i as int]@ == addr@,
                None => !self.is_pending(addr@),
            },
    {
        let mut i: usize = 0;
        while i < self.pending.len()
            invariant
                i <= self.pending@.len(),
                forall|j: int| 0 <= j < i ==> (#[trigger] self.pending@[j])@ != addr@,
            decreases self.pending@.len() - i,
        {
            if bytes_eq(&self.pending[i].bytes, &addr.bytes) {
                return Some(i);
            }
            i = i + 1;
        }
        None
    }

    /// One resolution step for `addr`: a special address or a cache hit is
    /// served at once and changes nothing; an address with a read already in
    /// flight waits; otherwise the read is claimed by this caller, so that
    /// concurrent requests for one address issue exactly one network call.
    pub fn request(&mut self, addr: &Address) -> (r: DecimalsStep)
        requires
            old(self).inv(),
        ensures
            final(self).inv(),
            final(self).cached() == old(self).cached(),
            (r is Resolved) <==> (is_special_address(addr@) || old(self).cached().contains_key(
                addr@,
            )),
            (r is Wait) <==> (!is_special_address(addr@) && !old(self).cached().contains_key(addr@)
                && old(self).is_pending(addr@)),
            match r {
                DecimalsStep::Resolved(d) => {
                    &&& *final(self) == *old(self)
                    &&& is_special_address(addr@) ==> d == 18
                    &&& !is_special_address(addr@) ==> d == old(self).cached()[addr@]
                },
                DecimalsStep::Wait => *final(self) == *old(self),
                DecimalsStep::Fetch => {
                    &&& !old(self).is_pending(addr@)
                    &&& forall|a: Seq<u8>|
                        #[trigger] final(self).is_pending(a) <==> (old(self).is_pending(a) || a == addr@)
                },
            },
    {
        if is_special(addr) {
            return DecimalsStep::Resolved(18);
        }
        if let Some(d) = self.find_entry(addr) {
            return DecimalsStep::Resolved(d);
        }
        match self.find_pending(addr) {
            Some(_) => DecimalsStep::Wait,
            None => {
                let ghost old_pending = self.pending@;
                self.pending.push(addr.clone());
                proof {
                    assert forall|a: Seq<u8>| #[trigger] self.is_pending(a) implies (exists|i: int|
                        0 <= i < old_pending.len() && (#[trigger] old_pending[i])@ == a)
                        || a == addr@ by {
                        let i = choose|i: int|
                            0 <= i < self.pending@.len() && (#[trigger] self.pending@[i])@ == a;
                        if i < old_pending.len() {
                            assert(old_pending[i]@ == a);
                        }
                    }
                    assert forall|a: Seq<u8>|
                        (exists|i: int| 0 <= i < old_pending.len() && (#[trigger] old_pending[i])@
                            == a) || a == addr@ implies #[trigger] self.is_pending(a) by {
                        if a == addr@ {
                            assert(self.pending@[old_pending.len() as int]@ == a);
                        } else {
                            let i = choose|i: int|
                                0 <= i < old_pending.len() && (#[trigger] old_pending[i])@ == a;
                            assert(self.pending@[i]@ == a);
                        }
                    }
                }
                DecimalsStep::Fetch
            },
        }
    }

    /// Reports the outcome of the network read claimed through `request`:
    /// the in-flight mark is dropped either way, a successful value is
    /// written once into the cache, and a failure leaves the cache clean so
    /// a later request retries.
    pub fn complete(&mut self, addr: &Address, fetched: Option<u8>)
        requires
            old(self).inv(),
        ensures
            final(self).inv(),
            !final(self).is_pending(addr@),
            forall|a: Seq<u8>|
                a != addr@ ==> (#[trigger] final(self).is_pending(a) <==> old(self).is_pending(a)),
            match fetched {
                Some(d) => final(self).cached() == if old(self).cached().contains_key(addr@) {
                    old(self).cached()
                } else {
                    old(self).cached().insert(addr@, d)
                },
                None => final(self).cached() == old(self).cached(),
            },
    {
        let ghost old_pending = self.pending@;
        if let Some(d) = fetched {
            if self.find_entry(addr).is_none() {
                let ghost old_entries = self.entries@;
                self.entries.push((addr.clone(), d));
                proof {
                    assert(self.entries@.drop_last() =~= old_entries);
                    lemma_entries_map(old_entries);
                    assert forall|x: int, y: int| 0 <= x < y < self.entries@.len() implies
                        (#[trigger] self.entries@[x]).0@ != (#[trigger] self.entries@[y]).0@ by {
                        if y == self.entries@.len() - 1 {
                            assert(old_entries[x].0@ != addr@);
                        }
                    }
                }
            }
        }
        if let Some(i) = self.find_pending(addr) {
            let ghost mid_pending = self.pending@;
            proof {
                assert(mid_pending == old_pending);
            }
            self.pending.remove(i);
            proof {
                assert forall|x: int, y: int| 0 <= x < y < self.pending@.len() implies
                    (#[trigger] self.pending@[x])@ != (#[trigger] self.pending@[y])@ by {
                    let xx: int = if x < i { x } else { x + 1 };
                    let yy: int = if y < i { y } else { y + 1 };
                    assert(self.pending@[x] == old_pending[xx]);
                    assert(self.pending@[y] == old_pending[yy]);
                }
                assert forall|a: Seq<u8>| #[trigger] self.is_pending(a) implies a != addr@
                    && old(self).is_pending(a) by {
                    let j = choose|j: int|
                        0 <= j < self.pending@.len() && (#[trigger] self.pending@[j])@ == a;
                    let jj: int = if j < i { j } else { j + 1 };
                    assert(old_pending[jj]@ == a);
                    assert(jj != i);
                }
                assert forall|a: Seq<u8>| a != addr@ && old(self).is_pending(a) implies
                    #[trigger] self.is_pending(a) by {
                    let j = choose|j: int|
                        0 <= j < old_pending.len() && (#[trigger] old_pending[j])@ == a;
                    let jj: int = if j < i { j } else { j - 1 };
                    assert(self.pending@[jj]@ == a);
                }
            }
        }
    }
}

/// Resolves a token's decimal precision from the resolver's current state:
/// the zero address and the wrapped-native address are 18 without any
/// network call; any other address is served from the cache, or not at all
/// until a read has completed.
pub fn get_coin_decimals(resolver: &DecimalsResolver, coin_address: &Address) -> (r: Option<u8>)
    requires
        resolver.inv(),
    ensures
        r == spec_decimals(*resolver, coin_address@),
{
    if is_special(coin_address) {
        return Some(18);
    }
    resolver.find_entry(coin_address)
}

/// The decimals available for `a` without a network read.
pub open spec fn spec_decimals(resolver: DecimalsResolver, a: Seq<u8>) -> Option<u8> {
    if is_special_address(a) {
        Some(18)
    } else if resolver.cached().contains_key(a) {
        Some(resolver.cached()[a])
    } else {
        None
    }
}

/// Single-flight law: when one caller's `request` for an uncached address
/// comes back `Fetch`, any further `request` for that address against the
/// resulting state answers `Wait` — a second network call is never started
/// while the first is in flight.
pub proof fn lemma_single_flight(s0: DecimalsResolver, s1: DecimalsResolver, addr: Seq<u8>)
    requires
        s0.inv(),
        !is_special_address(addr),
        !s0.cached().contains_key(addr),
        !s0.is_pending(addr),
        // the state `request` leaves behind when it answers `Fetch`
        s1.cached() == s0.cached(),
        forall|a: Seq<u8>| #[trigger] s1.is_pending(a) <==> (s0.is_pending(a) || a == addr),
    ensures
        !is_special_address(addr) && !s1.cached().contains_key(addr) && s1.is_pending(addr),
{
    assert(s1.is_pending(addr));
}

} // verus!
