use sources::address::Address;
use sources::clone_anyhow_error;
use sources::error::SourceError;
use sources::graph_api::{
    Block, ContainsId, Data, Meta, Paginator, PoolData, RegisteredPools, TickData, Token,
    UniV3SubgraphClient, U256, MAX_NUMBER_OF_ENTITIES_PER_PAGE,
};
use sources::maintenance::{plan_tick, recently_used_outdated_pools, remaining_sleep, TickAction};
use sources::pool_cache::PoolCache;
use sources::pool_fetching::UniswapV3PoolFetcher;
use sources::token_pair::TokenPair;

fn addr(n: u64) -> Address {
    Address::from_low_u64_be(n)
}

fn token(n: u64, symbol: &str) -> Token {
    Token { id: addr(n), symbol: symbol.to_string(), decimals: 18 }
}

fn pool(id: u64, t0: u64, t1: u64) -> PoolData {
    PoolData {
        id: addr(id),
        token0: Some(token(t0, "A")),
        token1: Some(token(t1, "B")),
        fee_tier: U256 { hi: 0, lo: 3000 },
        liquidity: U256 { hi: 0, lo: 303015134493562686441 },
        sqrt_price: U256 { hi: 0, lo: 792216481398733702759960397 },
        tick: -92110,
    }
}

fn pair(a: u64, b: u64) -> TokenPair {
    TokenPair::new(addr(a), addr(b)).unwrap()
}

fn fetcher(max_age: u64) -> UniswapV3PoolFetcher {
    let registered = RegisteredPools {
        fetched_block_number: 10,
        pools: vec![pool(100, 1, 2), pool(101, 2, 1), pool(102, 2, 3)],
    };
    UniswapV3PoolFetcher::new(&registered, max_age).unwrap()
}

#[test]
fn candidates_follow_the_index() {
    let f = fetcher(10);
    assert_eq!(f.candidate_pools(&vec![pair(1, 2)]), vec![addr(100), addr(101)]);
    assert_eq!(f.candidate_pools(&vec![pair(3, 2), pair(2, 1)]), vec![addr(102), addr(100), addr(101)]);
    assert_eq!(f.max_age(), 10);
}

#[test]
fn duplicate_pool_in_listing_is_indexed_once() {
    let registered = RegisteredPools { fetched_block_number: 1, pools: vec![pool(100, 1, 2), pool(100, 2, 1)] };
    let f = UniswapV3PoolFetcher::new(&registered, 5).unwrap();
    assert_eq!(f.candidate_pools(&vec![pair(1, 2)]), vec![addr(100)]);
}

#[test]
fn absent_pair_is_empty_without_query() {
    let f = fetcher(10);
    let mut cache = PoolCache::new();
    let (fresh, stale) = f.get_cached_pools(&mut cache, &vec![pair(7, 8)], 50);
    assert!(fresh.is_empty());
    assert!(stale.is_empty());
    assert!(!cache.contains(addr(100)));
}

#[test]
fn missing_pools_are_stale_then_fresh_after_update() {
    let f = fetcher(10);
    let mut cache = PoolCache::new();
    let (fresh, stale) = f.get_cached_pools(&mut cache, &vec![pair(1, 2)], 50);
    assert!(fresh.is_empty());
    assert_eq!(stale, vec![addr(100), addr(101)]);

    cache.update(&vec![pool(100, 1, 2), pool(101, 2, 1)], 50);
    let (fresh, stale) = f.get_cached_pools(&mut cache, &vec![pair(1, 2)], 55);
    assert!(stale.is_empty());
    assert_eq!(fresh.len(), 2);
    assert_eq!(fresh[0].id, addr(100));
    assert_eq!(fresh[1].id, addr(101));
}

#[test]
fn fresh_entry_served_and_request_time_advances() {
    let f = fetcher(10);
    let mut cache = PoolCache::new();
    cache.update(&vec![pool(102, 2, 3)], 100);
    let (fresh, stale) = f.get_cached_pools(&mut cache, &vec![pair(2, 3)], 109);
    assert!(stale.is_empty());
    assert_eq!(fresh.len(), 1);
    assert_eq!(fresh[0].id, addr(102));
    assert_eq!(fresh[0].tick, -92110);
    assert_eq!(fresh[0].token0.as_ref().unwrap().symbol, "A");
    let entry = cache.get(addr(102)).unwrap();
    assert_eq!(entry.updated_at, 100);
    assert_eq!(entry.requested_at, 109);
}

#[test]
fn entry_at_max_age_is_stale() {
    let f = fetcher(10);
    let mut cache = PoolCache::new();
    cache.update(&vec![pool(102, 2, 3)], 100);
    let (fresh, stale) = f.get_cached_pools(&mut cache, &vec![pair(2, 3)], 110);
    assert!(fresh.is_empty());
    assert_eq!(stale, vec![addr(102)]);
    assert_eq!(cache.get(addr(102)).unwrap().requested_at, 100);
}

#[test]
fn update_overwrites_entry() {
    let mut cache = PoolCache::new();
    cache.update(&vec![pool(100, 1, 2)], 5);
    let mut newer = pool(100, 1, 2);
    newer.tick = 7;
    cache.update(&vec![newer], 9);
    let entry = cache.get(addr(100)).unwrap();
    assert_eq!(entry.pool.tick, 7);
    assert_eq!(entry.updated_at, 9);
    assert_eq!(entry.requested_at, 9);
}

#[test]
fn listing_with_missing_token_fails() {
    let mut p = pool(100, 1, 2);
    p.token0 = None;
    let registered = RegisteredPools { fetched_block_number: 1, pools: vec![pool(99, 1, 2), p] };
    assert_eq!(UniswapV3PoolFetcher::new(&registered, 5).err(), Some(SourceError::MissingToken0(addr(100))));

    let mut p = pool(101, 1, 2);
    p.token1 = None;
    let registered = RegisteredPools { fetched_block_number: 1, pools: vec![p] };
    assert_eq!(UniswapV3PoolFetcher::new(&registered, 5).err(), Some(SourceError::MissingToken1(addr(101))));
}

#[test]
fn listing_with_equal_tokens_fails() {
    let registered = RegisteredPools { fetched_block_number: 1, pools: vec![pool(100, 4, 4)] };
    assert_eq!(UniswapV3PoolFetcher::new(&registered, 5).err(), Some(SourceError::SameTokens(addr(100))));
}

#[test]
fn tick_without_outdated_entries_selects_nothing() {
    let mut cache = PoolCache::new();
    cache.update(&vec![pool(100, 1, 2), pool(101, 1, 2)], 100);
    assert!(recently_used_outdated_pools(&cache, 105, 10, None).is_empty());
    assert!(recently_used_outdated_pools(&PoolCache::new(), 105, 10, Some(3)).is_empty());
}

#[test]
fn tick_refreshes_most_recently_requested() {
    let mut cache = PoolCache::new();
    // E5 is requested earliest, E1 latest; all are stale at 1000.
    for (id, t) in [(5u64, 10u64), (3, 30), (1, 50), (4, 20), (2, 40)] {
        cache.update(&vec![pool(id, 1, 2)], t);
    }
    let chosen = recently_used_outdated_pools(&cache, 1000, 100, Some(2));
    assert_eq!(chosen, vec![addr(1), addr(2)]);
    let all = recently_used_outdated_pools(&cache, 1000, 100, None);
    assert_eq!(all, vec![addr(1), addr(2), addr(3), addr(4), addr(5)]);
}

#[test]
fn tick_skips_entries_not_older_than_max_age() {
    let mut cache = PoolCache::new();
    cache.update(&vec![pool(1, 1, 2)], 890);
    cache.update(&vec![pool(2, 1, 2)], 900);
    cache.update(&vec![pool(3, 1, 2)], 950);
    // Age 110 and 100 with max_age 100: only the first is outdated.
    assert_eq!(recently_used_outdated_pools(&cache, 1000, 100, Some(5)), vec![addr(1)]);
}

#[test]
fn sleep_is_the_rest_of_the_interval() {
    assert_eq!(remaining_sleep(1000, 300), 700);
    assert_eq!(remaining_sleep(1000, 1500), 0);
}

#[test]
fn pagination_walks_pages_until_a_short_one() {
    let mut pager: Paginator<PoolData> = Paginator::new(42, 2);
    let pages = vec![vec![pool(1, 1, 2), pool(2, 1, 2)], vec![pool(3, 1, 2), pool(4, 1, 2)], vec![pool(5, 1, 2)]];
    let mut requests = Vec::new();
    let mut pages = pages.into_iter();
    while let Some(req) = pager.next_request() {
        requests.push(req);
        pager.accept_page(pages.next().unwrap());
    }
    assert_eq!(requests.len(), 3);
    assert!(requests.iter().all(|r| r.block == 42 && r.page_size == 2));
    assert_eq!(requests[0].last_id, "");
    assert_eq!(requests[1].last_id, pool(2, 1, 2).get_id());
    assert_eq!(requests[2].last_id, pool(4, 1, 2).get_id());
    let items = pager.into_items();
    let ids: Vec<Address> = items.iter().map(|p| p.id).collect();
    assert_eq!(ids, vec![addr(1), addr(2), addr(3), addr(4), addr(5)]);
}

#[test]
fn pagination_with_empty_last_page() {
    let mut pager: Paginator<TickData> = Paginator::new(7, 1);
    let tick = TickData { id: "0xabc#0".to_string(), tick_idx: 0, liquidity_net: -5, pool_address: addr(9) };
    pager.accept_page(vec![tick]);
    let req = pager.next_request().unwrap();
    assert_eq!(req.last_id, "0xabc#0");
    pager.accept_page(Vec::new());
    assert!(pager.next_request().is_none());
    let client = UniV3SubgraphClient::for_chain(1).unwrap();
    assert_eq!(client.get_ticks(pager).len(), 1);
}

#[test]
fn pool_id_is_lowercase_hex() {
    let p = pool(0xAB, 1, 2);
    assert_eq!(p.get_id(), "0x00000000000000000000000000000000000000ab");
    let q = PoolData { id: Address { hi: 0xC02AAA39, lo: 0xb223fe8d0a0e5c4f27ead9083c756cc2 }, ..pool(0, 1, 2) };
    assert_eq!(q.get_id(), "0xc02aaa39b223fe8d0a0e5c4f27ead9083c756cc2");
    let top = PoolData { id: Address { hi: u32::MAX, lo: u128::MAX }, ..pool(0, 1, 2) };
    assert_eq!(top.get_id(), "0xffffffffffffffffffffffffffffffffffffffff");
}

#[test]
fn chain_selection() {
    let client = UniV3SubgraphClient::for_chain(1).unwrap();
    assert_eq!(client.org, "uniswap");
    assert_eq!(client.name, "uniswap-v3");
    assert_eq!(UniV3SubgraphClient::for_chain(5).err(), Some(SourceError::UnsupportedChain(5)));
}

#[test]
fn safe_block_is_head_less_margin() {
    let client = UniV3SubgraphClient::for_chain(1).unwrap();
    let head = |n: u64| Data { meta: Meta { block: Block { number: n } } };
    assert_eq!(client.get_safe_block(&head(1000)), 936);
    assert_eq!(client.get_safe_block(&head(64)), 0);
    assert_eq!(client.get_safe_block(&head(10)), 0);
}

#[test]
fn registered_pools_from_listing() {
    let client = UniV3SubgraphClient::for_chain(1).unwrap();
    let mut pager = client.start_listing::<PoolData>(500);
    let req = pager.next_request().unwrap();
    assert_eq!(req.page_size, MAX_NUMBER_OF_ENTITIES_PER_PAGE);
    pager.accept_page(vec![pool(1, 1, 2)]);
    let registered = client.get_registered_pools(pager);
    assert_eq!(registered.fetched_block_number, 500);
    assert_eq!(registered.pools.len(), 1);
}

#[test]
fn cloned_error_keeps_chain() {
    let err = anyhow::Error::msg("inner").context("outer");
    let cloned = clone_anyhow_error(&err);
    assert_eq!(format!("{}", cloned), "outer: inner");
}

#[test]
fn tick_plan_follows_owner_and_staleness() {
    assert_eq!(plan_tick(None, 10, Some(1)), TickAction::Stop);
    let mut cache = PoolCache::new();
    cache.update(&vec![pool(1, 1, 2)], 100);
    assert_eq!(plan_tick(Some((&cache, 50)), 120, None), TickAction::Idle);
    assert_eq!(plan_tick(Some((&cache, 50)), 200, None), TickAction::Refresh(vec![addr(1)]));
}

#[test]
fn completed_fetch_appends_and_caches() {
    let f = fetcher(10);
    let mut cache = PoolCache::new();
    cache.update(&vec![pool(100, 1, 2)], 40);
    let (fresh, stale) = f.get_cached_pools(&mut cache, &vec![pair(1, 2)], 45);
    assert_eq!(stale, vec![addr(101)]);
    let all = f.complete_fetch(&mut cache, fresh, vec![pool(101, 2, 1)], 47);
    let ids: Vec<Address> = all.iter().map(|p| p.id).collect();
    assert_eq!(ids, vec![addr(100), addr(101)]);
    assert_eq!(cache.get(addr(101)).unwrap().updated_at, 47);
}
