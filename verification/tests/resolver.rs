use dex_indexer::resolver::{get_coin_decimals, wrapped_native, DecimalsResolver, DecimalsStep};
use dex_indexer::types::Address;

fn addr(last: u8) -> Address {
    let mut bytes = vec![0u8; 20];
    bytes[19] = last;
    Address { bytes }
}

#[test]
fn zero_and_wrapped_native_resolve_without_network() {
    let resolver = DecimalsResolver::new();
    assert_eq!(get_coin_decimals(&resolver, &Address::zero()), Some(18));
    assert_eq!(get_coin_decimals(&resolver, &wrapped_native()), Some(18));
    // the fresh resolver holds nothing, so a hit can only be the special path
    assert_eq!(get_coin_decimals(&resolver, &addr(0x42)), None);
}

#[test]
fn special_addresses_never_reach_the_fetch_path() {
    let mut resolver = DecimalsResolver::new();
    assert!(matches!(resolver.request(&Address::zero()), DecimalsStep::Resolved(18)));
    assert!(matches!(resolver.request(&wrapped_native()), DecimalsStep::Resolved(18)));
}

#[test]
fn concurrent_requests_coalesce_into_one_fetch() {
    let mut resolver = DecimalsResolver::new();
    let token = addr(0x42);
    // the first caller claims the network read
    assert!(matches!(resolver.request(&token), DecimalsStep::Fetch));
    // every further caller waits instead of fetching again
    assert!(matches!(resolver.request(&token), DecimalsStep::Wait));
    assert!(matches!(resolver.request(&token), DecimalsStep::Wait));
    // an unrelated address is not blocked
    assert!(matches!(resolver.request(&addr(0x43)), DecimalsStep::Fetch));
    // the read completes and everyone resolves from the cache
    resolver.complete(&token, Some(9));
    assert!(matches!(resolver.request(&token), DecimalsStep::Resolved(9)));
    assert_eq!(get_coin_decimals(&resolver, &token), Some(9));
}

#[test]
fn failed_fetch_does_not_poison_the_cache() {
    let mut resolver = DecimalsResolver::new();
    let token = addr(0x42);
    assert!(matches!(resolver.request(&token), DecimalsStep::Fetch));
    resolver.complete(&token, None);
    // nothing cached, nothing in flight: the next request retries the read
    assert_eq!(get_coin_decimals(&resolver, &token), None);
    assert!(matches!(resolver.request(&token), DecimalsStep::Fetch));
}

#[test]
fn cache_is_write_once_per_key() {
    let mut resolver = DecimalsResolver::new();
    let token = addr(0x42);
    assert!(matches!(resolver.request(&token), DecimalsStep::Fetch));
    resolver.complete(&token, Some(9));
    resolver.complete(&token, Some(12));
    assert_eq!(get_coin_decimals(&resolver, &token), Some(9));
}
