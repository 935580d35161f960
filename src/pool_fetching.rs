//! The synchronous side of the pool fetcher: which pools a request names,
//! which of them the cache serves, and which must be fetched.

use vstd::prelude::*;

use crate::address::Address;
use crate::error::SourceError;
use crate::graph_api::{PoolData, RegisteredPools};
use crate::pool_cache::{fresh_pools, refreshed, stale_ids, touched, CachedPool, PoolCache};
use crate::pool_index::{candidates_of, index_of, pool_error, PoolIndex};
use crate::token_pair::TokenPair;

verus! {

/// The pool index and the staleness threshold of a fetcher. The cache it
/// serves from is handed in, so that the caller can hold it under its lock.
pub struct UniswapV3PoolFetcher {
    /// Pool identifiers by the token pair they trade.
    pub(crate) pools_by_token_pair: PoolIndex,
    pub(crate) max_age: u64,
}

impl UniswapV3PoolFetcher {
    pub open(crate) spec fn wf(&self) -> bool {
        self.pools_by_token_pair.wf()
    }

    /// The pool index as a map.
    pub open(crate) spec fn spec_index(&self) -> Map<TokenPair, Seq<Address>> {
        self.pools_by_token_pair@
    }

    pub open(crate) spec fn spec_max_age(&self) -> u64 {
        self.max_age
    }

    /// A fetcher over the pools of a listing. Fails on the first pool that
    /// does not report two distinct tokens; no partial fetcher is returned.
    pub fn new(registered_pools: &RegisteredPools, max_age: u64) -> (r: Result<
        UniswapV3PoolFetcher,
        SourceError,
    >)
        ensures
            r is Ok <==> forall|i: int|
                0 <= i < registered_pools.pools@.len() ==> pool_error(
                    #[trigger] registered_pools.pools@[i],
                ) is None,
            r matches Ok(f) ==> f.wf() && f.spec_index() == index_of(registered_pools.pools@)
                && f.spec_max_age() == max_age,
            r matches Err(e) ==> exists|i: int|
                0 <= i < registered_pools.pools@.len() && pool_error(registered_pools.pools@[i])
                    == Some(e) && forall|j: int|
                    0 <= j < i ==> pool_error(#[trigger] registered_pools.pools@[j]) is None,
    {
        match PoolIndex::build(&registered_pools.pools) {
            Ok(pools_by_token_pair) => Ok(UniswapV3PoolFetcher { pools_by_token_pair, max_age }),
            Err(e) => Err(e),
        }
    }

    /// The staleness threshold.
    pub fn max_age(&self) -> (r: u64)
        ensures
            r == self.spec_max_age(),
    {
        self.max_age
    }

    /// The identifiers of the pools trading the requested pairs.
    pub fn candidate_pools(&self, token_pairs: &Vec<TokenPair>) -> (r: Vec<Address>)
        requires
            self.wf(),
        ensures
            r@ == candidates_of(self.spec_index(), token_pairs@),
    {
        self.pools_by_token_pair.candidates(token_pairs)
    }

    /// Serves the requested pairs from `cache` at `now`: the snapshots of
    /// the fresh pools, whose last request time becomes `now`, and the
    /// identifiers of the pools that must be fetched. Where no pool trades
    /// the pairs the cache is left alone.
    pub fn get_cached_pools(&self, cache: &mut PoolCache, token_pairs: &Vec<TokenPair>, now: u64) -> (r: (
        Vec<PoolData>,
        Vec<Address>,
    ))
        requires
            self.wf(),
            old(cache).wf(),
        ensures
            final(cache).wf(),
            r.0@ == fresh_pools(
                old(cache)@,
                candidates_of(self.spec_index(), token_pairs@),
                now,
                self.spec_max_age(),
            ),
            r.1@ == stale_ids(
                old(cache)@,
                candidates_of(self.spec_index(), token_pairs@),
                now,
                self.spec_max_age(),
            ),
            final(cache)@ == touched(
                old(cache)@,
                candidates_of(self.spec_index(), token_pairs@),
                now,
                self.spec_max_age(),
            ),
    {
        let ids = self.candidate_pools(token_pairs);
        if ids.len() == 0 {
            proof {
                assert(fresh_pools(cache@, ids@, now, self.max_age) == Seq::<PoolData>::empty());
                assert(stale_ids(cache@, ids@, now, self.max_age) == Seq::<Address>::empty());
                assert(touched(cache@, ids@, now, self.max_age) =~= cache@);
            }
            return (Vec::new(), Vec::new());
        }
        cache.take_fresh(&ids, now, self.max_age)
    }

    /// Completes a fetch once the remote query for the stale pools answered
    /// `updated` at `now`: the cache stores them, and the result is the
    /// pools served from the cache followed by the fetched ones.
    pub fn complete_fetch(
        &self,
        cache: &mut PoolCache,
        cached: Vec<PoolData>,
        updated: Vec<PoolData>,
        now: u64,
    ) -> (r: Vec<PoolData>)
        requires
            old(cache).wf(),
        ensures
            final(cache).wf(),
            final(cache)@ == refreshed(old(cache)@, updated@, now),
            r@ == cached@ + updated@,
    {
        cache.update(&updated, now);
        let mut r = cached;
        let mut updated = updated;
        r.append(&mut updated);
        r
    }
}

/// Pairs that no pool trades name no pool: the cache serves nothing, nothing
/// is stale, so no remote query is made, and the cache is unchanged.
pub proof fn lemma_absent_pairs_need_no_query(
    index: Map<TokenPair, Seq<Address>>,
    cache: Map<Address, CachedPool>,
    pairs: Seq<TokenPair>,
    now: u64,
    max_age: u64,
)
    requires
        forall|j: int| 0 <= j < pairs.len() ==> !index.contains_key(#[trigger] pairs[j]),
    ensures
        candidates_of(index, pairs) == Seq::<Address>::empty(),
        fresh_pools(cache, candidates_of(index, pairs), now, max_age) == Seq::<PoolData>::empty(),
        stale_ids(cache, candidates_of(index, pairs), now, max_age) == Seq::<Address>::empty(),
        touched(cache, candidates_of(index, pairs), now, max_age) == cache,
    decreases pairs.len(),
{
    if pairs.len() > 0 {
        lemma_absent_pairs_need_no_query(index, cache, pairs.drop_last(), now, max_age);
        assert(!index.contains_key(pairs[pairs.len() - 1]));
        assert(candidates_of(index, pairs) =~= Seq::<Address>::empty());
    }
    assert(touched(cache, Seq::<Address>::empty(), now, max_age) =~= cache);
}

} // verus!
