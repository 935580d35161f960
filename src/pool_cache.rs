//! The cache of pool snapshots, keyed by pool identifier, with the time each
//! was last refreshed and last asked for.

use vstd::prelude::*;

use crate::address::Address;
use crate::assoc::{
    assoc_map, keys_unique, lemma_assoc_dom, lemma_assoc_index, lemma_assoc_push,
    lemma_assoc_update,
};
use crate::graph_api::{saturating_diff, PoolData};

verus! {

/// A snapshot of a pool with the time of its last refresh and of the last
/// time a caller used it. Times are ticks of one monotonic clock.
#[derive(Debug)]
pub struct CachedPool {
    pub pool: PoolData,
    pub updated_at: u64,
    pub requested_at: u64,
}

/// How long ago `then` was at `now`; zero where `then` lies ahead.
pub open spec fn age(now: u64, then: u64) -> int {
    saturating_diff(now as int, then as int)
}

/// The cache holds `id`, refreshed less than `max_age` ago.
pub open spec fn is_fresh(c: Map<Address, CachedPool>, id: Address, now: u64, max_age: u64) -> bool {
    c.contains_key(id) && age(now, c[id].updated_at) < max_age
}

/// The cache holds `id`, refreshed more than `max_age` ago.
pub open spec fn is_outdated(c: Map<Address, CachedPool>, id: Address, now: u64, max_age: u64) -> bool {
    c.contains_key(id) && age(now, c[id].updated_at) > max_age
}

/// The cached snapshots of the fresh ones among `ids`, in order.
pub open spec fn fresh_pools(c: Map<Address, CachedPool>, ids: Seq<Address>, now: u64, max_age: u64) -> Seq<
    PoolData,
>
    decreases ids.len(),
{
    if ids.len() == 0 {
        Seq::empty()
    } else {
        fresh_pools(c, ids.drop_last(), now, max_age) + if is_fresh(c, ids.last(), now, max_age) {
            seq![c[ids.last()].pool]
        } else {
            Seq::empty()
        }
    }
}

/// The ones among `ids` that the cache cannot serve: absent or not fresh, in
/// order.
pub open spec fn stale_ids(c: Map<Address, CachedPool>, ids: Seq<Address>, now: u64, max_age: u64) -> Seq<
    Address,
>
    decreases ids.len(),
{
    if ids.len() == 0 {
        Seq::empty()
    } else {
        stale_ids(c, ids.drop_last(), now, max_age) + if is_fresh(c, ids.last(), now, max_age) {
            Seq::empty()
        } else {
            seq![ids.last()]
        }
    }
}

/// The cache after the fresh ones among `ids` were served at `now`: each of
/// them was last asked for at `now`, and nothing else changed.
pub open spec fn touched(c: Map<Address, CachedPool>, ids: Seq<Address>, now: u64, max_age: u64) -> Map<
    Address,
    CachedPool,
> {
    Map::new(
        |k: Address| c.contains_key(k),
        |k: Address|
            if ids.contains(k) && is_fresh(c, k, now, max_age) {
                CachedPool { pool: c[k].pool, updated_at: c[k].updated_at, requested_at: now }
            } else {
                c[k]
            },
    )
}

/// The cache after `pools` came back from the remote service at `now`: each
/// is stored, refreshed and asked for at `now`; a later one of the same
/// identifier wins.
pub open spec fn refreshed(c: Map<Address, CachedPool>, pools: Seq<PoolData>, now: u64) -> Map<
    Address,
    CachedPool,
>
    decreases pools.len(),
{
    if pools.len() == 0 {
        c
    } else {
        refreshed(c, pools.drop_last(), now).insert(
            pools.last().id,
            CachedPool { pool: pools.last(), updated_at: now, requested_at: now },
        )
    }
}

/// Pool snapshots by pool identifier. Entries are refreshed in place and
/// never removed.
pub struct PoolCache {
    pub(crate) entries: Vec<(Address, CachedPool)>,
}

impl View for PoolCache {
    type V = Map<Address, CachedPool>;

    open(crate) spec fn view(&self) -> Map<Address, CachedPool> {
        assoc_map(self.entries@)
    }
}

impl PoolCache {
    /// No identifier is stored twice.
    pub open(crate) spec fn wf(&self) -> bool {
        keys_unique(self.entries@)
    }

    /// An empty cache.
    pub fn new() -> (r: PoolCache)
        ensures
            r.wf(),
            r@ == Map::<Address, CachedPool>::empty(),
    {
        PoolCache { entries: Vec::new() }
    }

    /// The position of the entry of `id`, if there is one.
    fn find(&self, id: Address) -> (r: Option<usize>)
        requires
            self.wf(),
        ensures
            r is None <==> !self@.contains_key(id),
            r matches Some(k) ==> k < self.entries@.len() && self.entries@[k as int].0 == id
                && self@[id] == self.entries@[k as int].1,
    {
        let mut i: usize = 0;
        while i < self.entries.len()
            invariant
                i <= self.entries@.len(),
                keys_unique(self.entries@),
                forall|j: int| 0 <= j < i ==> self.entries@[j].0 != id,
            decreases self.entries.len() - i,
        {
            if self.entries[i].0 == id {
                proof {
                    lemma_assoc_index(self.entries@, i as int);
                }
                return Some(i);
            }
            i = i + 1;
        }
        proof {
            lemma_assoc_dom(self.entries@, id);
        }
        None
    }

    /// Whether the cache holds a snapshot of `id`.
    pub fn contains(&self, id: Address) -> (r: bool)
        requires
            self.wf(),
        ensures
            r == self@.contains_key(id),
    {
        self.find(id).is_some()
    }

    /// The entry of `id`, if the cache holds one.
    pub fn get(&self, id: Address) -> (r: Option<&CachedPool>)
        requires
            self.wf(),
        ensures
            r is None <==> !self@.contains_key(id),
            r matches Some(e) ==> *e == self@[id],
    {
        match self.find(id) {
            Some(k) => Some(&self.entries[k].1),
            None => None,
        }
    }

    /// Serves `ids` from the cache at `now`: returns the snapshots of the
    /// fresh ones, whose last request time becomes `now`, and the rest as
    /// stale, both in the order of `ids`.
    pub fn take_fresh(&mut self, ids: &Vec<Address>, now: u64, max_age: u64) -> (r: (
        Vec<PoolData>,
        Vec<Address>,
    ))
        requires
            old(self).wf(),
        ensures
            final(self).wf(),
            r.0@ == fresh_pools(old(self)@, ids@, now, max_age),
            r.1@ == stale_ids(old(self)@, ids@, now, max_age),
            final(self)@ == touched(old(self)@, ids@, now, max_age),
    {
        let ghost c = self@;
        let mut fresh: Vec<PoolData> = Vec::new();
        let mut stale: Vec<Address> = Vec::new();
        let mut i: usize = 0;
        while i < ids.len()
            invariant
                i <= ids@.len(),
                self.wf(),
                fresh@ == fresh_pools(c, ids@.take(i as int), now, max_age),
                stale@ == stale_ids(c, ids@.take(i as int), now, max_age),
                forall|k: Address| #[trigger] self@.contains_key(k) == c.contains_key(k),
                forall|k: Address|
                    #[trigger] c.contains_key(k) ==> self@[k] == if ids@.take(i as int).contains(k)
                        && is_fresh(c, k, now, max_age) {
                        CachedPool { pool: c[k].pool, updated_at: c[k].updated_at, requested_at: now }
                    } else {
                        c[k]
                    },
            decreases ids.len() - i,
        {
            let id = ids[i];
            let ghost prev = ids@.take(i as int);
            proof {
                assert(ids@.take(i + 1).drop_last() == prev);
                assert(ids@.take(i + 1).last() == id);
                let nxt = ids@.take(i + 1);
                assert forall|k: Address| #[trigger] nxt.contains(k) <==> (prev.contains(k) || k == id) by {
                    if nxt.contains(k) {
                        let j = choose|j: int| 0 <= j < nxt.len() && #[trigger] nxt[j] == k;
                        if j < i {
                            assert(prev[j] == k);
                        }
                    }
                    if prev.contains(k) {
                        let j = choose|j: int| 0 <= j < prev.len() && #[trigger] prev[j] == k;
                        assert(nxt[j] == k);
                    }
                    if k == id {
                        assert(nxt[i as int] == k);
                    }
                }
            }
            match self.find(id) {
                Some(k) => {
                    let e = &self.entries[k].1;
                    if now.saturating_sub(e.updated_at) < max_age {
                        let served = e.pool.cloned();
                        let kept = e.pool.cloned();
                        let updated_at = e.updated_at;
                        fresh.push(served);
                        let ghost before = self.entries@;
                        let ghost entry = CachedPool { pool: kept, updated_at, requested_at: now };
                        self.entries.set(k, (id, CachedPool { pool: kept, updated_at, requested_at: now }));
                        proof {
                            lemma_assoc_update(before, k as int, entry);
                            assert(self.entries@ == before.update(k as int, (before[k as int].0, entry)));
                        }
                    } else {
                        stale.push(id);
                    }
                },
                None => {
                    stale.push(id);
                },
            }
            i = i + 1;
        }
        proof {
            assert(ids@.take(i as int) == ids@);
            assert(self@ =~= touched(c, ids@, now, max_age));
        }
        (fresh, stale)
    }

    /// Stores the pools that the remote service returned at `now`, each
    /// refreshed and asked for at `now`.
    pub fn update(&mut self, pools: &Vec<PoolData>, now: u64)
        requires
            old(self).wf(),
        ensures
            final(self).wf(),
            final(self)@ == refreshed(old(self)@, pools@, now),
    {
        let ghost c = self@;
        let mut i: usize = 0;
        while i < pools.len()
            invariant
                i <= pools@.len(),
                self.wf(),
                self@ == refreshed(c, pools@.take(i as int), now),
            decreases pools.len() - i,
        {
            proof {
                assert(pools@.take(i + 1).drop_last() == pools@.take(i as int));
            }
            let p = &pools[i];
            let id = p.id;
            let entry = CachedPool { pool: p.cloned(), updated_at: now, requested_at: now };
            let ghost ge = entry;
            let ghost before = self.entries@;
            match self.find(id) {
                Some(k) => {
                    self.entries.set(k, (id, entry));
                    proof {
                        lemma_assoc_update(before, k as int, ge);
                        assert(self.entries@ == before.update(k as int, (before[k as int].0, ge)));
                    }
                },
                None => {
                    self.entries.push((id, entry));
                    proof {
                        lemma_assoc_push(before, id, ge);
                    }
                },
            }
            i = i + 1;
        }
        proof {
            assert(pools@.take(i as int) == pools@);
        }
    }
}

/// Pools that are all fresh are served from the cache as they are stored,
/// nothing is left to fetch, and each was last asked for at `now`.
pub proof fn lemma_fresh_served_from_cache(
    c: Map<Address, CachedPool>,
    ids: Seq<Address>,
    now: u64,
    max_age: u64,
)
    requires
        forall|i: int| 0 <= i < ids.len() ==> is_fresh(c, #[trigger] ids[i], now, max_age),
    ensures
        stale_ids(c, ids, now, max_age) == Seq::<Address>::empty(),
        fresh_pools(c, ids, now, max_age) == ids.map_values(|id: Address| c[id].pool),
        forall|i: int|
            0 <= i < ids.len() ==> #[trigger] touched(c, ids, now, max_age)[ids[i]] == (CachedPool {
                pool: c[ids[i]].pool,
                updated_at: c[ids[i]].updated_at,
                requested_at: now,
            }),
    decreases ids.len(),
{
    if ids.len() > 0 {
        lemma_fresh_served_from_cache(c, ids.drop_last(), now, max_age);
        assert(is_fresh(c, ids[ids.len() - 1], now, max_age));
        assert(stale_ids(c, ids, now, max_age) =~= Seq::<Address>::empty());
        assert(fresh_pools(c, ids, now, max_age) =~= ids.map_values(|id: Address| c[id].pool));
    }
    assert forall|i: int| 0 <= i < ids.len() implies #[trigger] touched(c, ids, now, max_age)[ids[i]] == (
    CachedPool { pool: c[ids[i]].pool, updated_at: c[ids[i]].updated_at, requested_at: now }) by {
        assert(ids.contains(ids[i]));
    }
}

/// The pools left to fetch are exactly the requested ones that the cache
/// does not hold fresh.
pub proof fn lemma_stale_ids_exact(c: Map<Address, CachedPool>, ids: Seq<Address>, now: u64, max_age: u64)
    ensures
        forall|k: Address|
            #[trigger] stale_ids(c, ids, now, max_age).contains(k) <==> (ids.contains(k) && !is_fresh(
                c,
                k,
                now,
                max_age,
            )),
    decreases ids.len(),
{
    if ids.len() > 0 {
        let prev = ids.drop_last();
        lemma_stale_ids_exact(c, prev, now, max_age);
        let sp = stale_ids(c, prev, now, max_age);
        let st = stale_ids(c, ids, now, max_age);
        assert forall|k: Address| #[trigger] st.contains(k) <==> (ids.contains(k) && !is_fresh(c, k, now, max_age)) by {
            if st.contains(k) {
                let j = choose|j: int| 0 <= j < st.len() && st[j] == k;
                if j < sp.len() {
                    assert(sp[j] == k);
                    assert(sp.contains(k));
                    let m = choose|m: int| 0 <= m < prev.len() && prev[m] == k;
                    assert(ids[m] == k);
                } else {
                    assert(ids[ids.len() - 1] == k);
                }
            }
            if ids.contains(k) && !is_fresh(c, k, now, max_age) {
                let m = choose|m: int| 0 <= m < ids.len() && ids[m] == k;
                if m < ids.len() - 1 {
                    assert(prev[m] == k);
                    assert(prev.contains(k));
                    assert(sp.contains(k));
                    let j = choose|j: int| 0 <= j < sp.len() && sp[j] == k;
                    assert(st[j] == k);
                } else {
                    assert(st[st.len() - 1] == k);
                }
            }
        }
    }
}

/// A pool stored from a remote answer at `now` is fresh for any later time
/// within `max_age`: a second request in that span makes no remote query.
pub proof fn lemma_refreshed_is_fresh(
    c: Map<Address, CachedPool>,
    pools: Seq<PoolData>,
    now: u64,
    later: u64,
    max_age: u64,
    i: int,
)
    requires
        0 <= i < pools.len(),
        now <= later,
        later - now < max_age,
    ensures
        is_fresh(refreshed(c, pools, now), pools[i].id, later, max_age),
        refreshed(c, pools, now)[pools[i].id].updated_at == now,
    decreases pools.len(),
{
    if i < pools.len() - 1 {
        lemma_refreshed_is_fresh(c, pools.drop_last(), now, later, max_age, i);
    }
}

} // verus!
