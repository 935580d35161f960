//! The static index from token pairs to the pools that trade them.

use vstd::prelude::*;

use crate::address::Address;
use crate::assoc::{
    assoc_map, keys_unique, lemma_assoc_dom, lemma_assoc_index, lemma_assoc_push,
    lemma_assoc_update,
};
use crate::error::SourceError;
use crate::graph_api::PoolData;
use crate::token_pair::TokenPair;

verus! {

/// The pair that a listed pool trades, where it reports two distinct tokens.
pub open spec fn pool_pair(p: PoolData) -> Option<TokenPair> {
    match (p.token0, p.token1) {
        (Some(a), Some(b)) => TokenPair::spec_new(a.id, b.id),
        _ => None,
    }
}

/// Why a listed pool cannot enter the index, if it cannot.
pub open spec fn pool_error(p: PoolData) -> Option<SourceError> {
    match (p.token0, p.token1) {
        (None, _) => Some(SourceError::MissingToken0(p.id)),
        (_, None) => Some(SourceError::MissingToken1(p.id)),
        (Some(a), Some(b)) => if a.id == b.id {
            Some(SourceError::SameTokens(p.id))
        } else {
            None
        },
    }
}

/// `s` with `x` appended, unless `s` already holds it.
pub open spec fn push_new<T>(s: Seq<T>, x: T) -> Seq<T> {
    if s.contains(x) {
        s
    } else {
        s.push(x)
    }
}

/// The index of a listing: each pair that some pool trades, mapped to the
/// distinct identifiers of those pools in listing order.
pub open spec fn index_of(pools: Seq<PoolData>) -> Map<TokenPair, Seq<Address>>
    decreases pools.len(),
{
    if pools.len() == 0 {
        Map::empty()
    } else {
        let m = index_of(pools.drop_last());
        let p = pools.last();
        match pool_pair(p) {
            Some(pair) => m.insert(
                pair,
                if m.contains_key(pair) {
                    push_new(m[pair], p.id)
                } else {
                    seq![p.id]
                },
            ),
            None => m,
        }
    }
}

/// The pools of the requested pairs, pair by pair; a pair that no pool
/// trades adds nothing.
pub open spec fn candidates_of(index: Map<TokenPair, Seq<Address>>, pairs: Seq<TokenPair>) -> Seq<
    Address,
>
    decreases pairs.len(),
{
    if pairs.len() == 0 {
        Seq::empty()
    } else {
        candidates_of(index, pairs.drop_last()) + if index.contains_key(pairs.last()) {
            index[pairs.last()]
        } else {
            Seq::empty()
        }
    }
}

/// The buckets as key-value entries of sequences.
pub open spec fn bucket_entries(b: Seq<(TokenPair, Vec<Address>)>) -> Seq<(TokenPair, Seq<Address>)> {
    b.map_values(|e: (TokenPair, Vec<Address>)| (e.0, e.1@))
}

/// A mapping from token pairs to the identifiers of the pools trading them,
/// built once from a listing.
pub struct PoolIndex {
    pub(crate) buckets: Vec<(TokenPair, Vec<Address>)>,
}

impl View for PoolIndex {
    type V = Map<TokenPair, Seq<Address>>;

    open(crate) spec fn view(&self) -> Map<TokenPair, Seq<Address>> {
        assoc_map(bucket_entries(self.buckets@))
    }
}

/// Whether `s` holds `x`.
fn contains_address(s: &Vec<Address>, x: Address) -> (r: bool)
    ensures
        r == s@.contains(x),
{
    let mut i: usize = 0;
    while i < s.len()
        invariant
            i <= s.len(),
            forall|j: int| 0 <= j < i ==> s@[j] != x,
        decreases s.len() - i,
    {
        if s[i] == x {
            return true;
        }
        i = i + 1;
    }
    false
}

impl PoolIndex {
    /// The buckets have distinct pairs.
    pub open(crate) spec fn wf(&self) -> bool {
        keys_unique(bucket_entries(self.buckets@))
    }

    /// The position of the bucket of `pair`, if there is one.
    fn find(&self, pair: &TokenPair) -> (r: Option<usize>)
        requires
            self.wf(),
        ensures
            r is None <==> !self@.contains_key(*pair),
            r matches Some(k) ==> k < self.buckets@.len() && self.buckets@[k as int].0 == *pair
                && self@[*pair] == self.buckets@[k as int].1@,
    {
        let ghost e = bucket_entries(self.buckets@);
        let mut i: usize = 0;
        while i < self.buckets.len()
            invariant
                i <= self.buckets@.len(),
                e == bucket_entries(self.buckets@),
                keys_unique(e),
                forall|j: int| 0 <= j < i ==> self.buckets@[j].0 != *pair,
            decreases self.buckets.len() - i,
        {
            if self.buckets[i].0 == *pair {
                proof {
                    lemma_assoc_index(e, i as int);
                }
                return Some(i);
            }
            i = i + 1;
        }
        proof {
            lemma_assoc_dom(e, *pair);
            if self@.contains_key(*pair) {
                let j = choose|j: int| 0 <= j < e.len() && e[j].0 == *pair;
                assert(self.buckets@[j].0 == *pair);
            }
        }
        None
    }

    /// Builds the index of a listing. Fails on the first pool that does not
    /// report two tokens, or reports the same token twice.
    pub fn build(pools: &Vec<PoolData>) -> (r: Result<PoolIndex, SourceError>)
        ensures
            r is Ok <==> forall|i: int| 0 <= i < pools@.len() ==> pool_error(pools@[i]) is None,
            r matches Ok(ix) ==> ix.wf() && ix@ == index_of(pools@),
            r matches Err(e) ==> exists|i: int|
                0 <= i < pools@.len() && pool_error(pools@[i]) == Some(e) && forall|j: int|
                    0 <= j < i ==> pool_error(pools@[j]) is None,
    {
        let mut ix = PoolIndex { buckets: Vec::new() };
        let mut i: usize = 0;
        proof {
            assert(bucket_entries(ix.buckets@) =~= Seq::empty());
            assert(ix@ =~= index_of(pools@.take(0)));
        }
        while i < pools.len()
            invariant
                i <= pools@.len(),
                ix.wf(),
                ix@ == index_of(pools@.take(i as int)),
                forall|j: int| 0 <= j < i ==> pool_error(pools@[j]) is None,
            decreases pools.len() - i,
        {
            let p = &pools[i];
            let t0 = match &p.token0 {
                Some(t) => t.id,
                None => {
                    return Err(SourceError::MissingToken0(p.id));
                },
            };
            let t1 = match &p.token1 {
                Some(t) => t.id,
                None => {
                    return Err(SourceError::MissingToken1(p.id));
                },
            };
            let pair = match TokenPair::new(t0, t1) {
                Some(pair) => pair,
                None => {
                    return Err(SourceError::SameTokens(p.id));
                },
            };
            proof {
                assert(pools@.take(i + 1).drop_last() == pools@.take(i as int));
                assert(pool_pair(*p) == Some(pair));
            }
            ix.add(pair, p.id);
            i = i + 1;
        }
        proof {
            assert(pools@.take(i as int) == pools@);
        }
        Ok(ix)
    }

    /// Adds `id` to the bucket of `pair`, unless it is there already.
    fn add(&mut self, pair: TokenPair, id: Address)
        requires
            old(self).wf(),
        ensures
            final(self).wf(),
            final(self)@ == old(self)@.insert(
                pair,
                if old(self)@.contains_key(pair) {
                    push_new(old(self)@[pair], id)
                } else {
                    seq![id]
                },
            ),
    {
        let ghost e = bucket_entries(self.buckets@);
        match self.find(&pair) {
            Some(k) => {
                if !contains_address(&self.buckets[k].1, id) {
                    let mut bucket = self.buckets[k].1.clone();
                    bucket.push(id);
                    let ghost nb = bucket@;
                    self.buckets.set(k, (pair, bucket));
                    proof {
                        lemma_assoc_update(e, k as int, nb);
                        assert(bucket_entries(self.buckets@) =~= e.update(k as int, (e[k as int].0, nb)));
                    }
                } else {
                    proof {
                        assert(self@.insert(pair, self@[pair]) =~= self@);
                    }
                }
            },
            None => {
                let mut bucket: Vec<Address> = Vec::new();
                bucket.push(id);
                let ghost nb = bucket@;
                self.buckets.push((pair, bucket));
                proof {
                    lemma_assoc_push(e, pair, nb);
                    assert(bucket_entries(self.buckets@) =~= e.push((pair, nb)));
                    assert(nb =~= seq![id]);
                }
            },
        }
    }

    /// The pools trading the requested pairs, pair by pair.
    pub fn candidates(&self, token_pairs: &Vec<TokenPair>) -> (r: Vec<Address>)
        requires
            self.wf(),
        ensures
            r@ == candidates_of(self@, token_pairs@),
    {
        let mut r: Vec<Address> = Vec::new();
        let mut i: usize = 0;
        while i < token_pairs.len()
            invariant
                i <= token_pairs@.len(),
                self.wf(),
                r@ == candidates_of(self@, token_pairs@.take(i as int)),
            decreases token_pairs.len() - i,
        {
            proof {
                assert(token_pairs@.take(i + 1).drop_last() == token_pairs@.take(i as int));
            }
            match self.find(&token_pairs[i]) {
                Some(k) => {
                    let bucket = &self.buckets[k].1;
                    let ghost before = r@;
                    let mut j: usize = 0;
                    while j < bucket.len()
                        invariant
                            j <= bucket@.len(),
                            r@ == before + bucket@.take(j as int),
                        decreases bucket.len() - j,
                    {
                        r.push(bucket[j]);
                        j = j + 1;
                        proof {
                            assert(bucket@.take(j as int) == bucket@.take(j - 1).push(bucket@[j - 1]));
                        }
                    }
                    proof {
                        assert(bucket@.take(j as int) == bucket@);
                    }
                },
                None => {
                    proof {
                        assert(r@ + Seq::<Address>::empty() == r@);
                    }
                },
            }
            i = i + 1;
        }
        proof {
            assert(token_pairs@.take(i as int) == token_pairs@);
        }
        r
    }
}

} // verus!
