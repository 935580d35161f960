//! The decisions of the background maintenance task: which outdated pools a
//! tick refreshes, and how long it then sleeps.

use vstd::prelude::*;

use crate::address::Address;
use crate::assoc::{assoc_map, keys_unique, lemma_assoc_dom, lemma_assoc_index};
use crate::graph_api::saturating_diff;
use crate::pool_cache::{is_outdated, CachedPool, PoolCache};

verus! {

/// The outdated pools that a tick refreshes: most recently requested first,
/// at most `update_size` of them where a cap is given. Among pools requested
/// at the same time the choice is open.
pub open spec fn is_refresh_choice(
    c: Map<Address, CachedPool>,
    now: u64,
    max_age: u64,
    update_size: Option<usize>,
    r: Seq<Address>,
) -> bool {
    &&& r.no_duplicates()
    &&& forall|i: int| 0 <= i < r.len() ==> is_outdated(c, #[trigger] r[i], now, max_age)
    &&& forall|i: int, j: int|
        0 <= i < j < r.len() ==> c[#[trigger] r[i]].requested_at >= c[#[trigger] r[j]].requested_at
    &&& forall|id: Address, i: int|
        #![trigger is_outdated(c, id, now, max_age), r[i]]
        is_outdated(c, id, now, max_age) && !r.contains(id) && 0 <= i < r.len() ==> c[id].requested_at
            <= c[r[i]].requested_at
    &&& match update_size {
        None => forall|id: Address| is_outdated(c, id, now, max_age) ==> #[trigger] r.contains(id),
        Some(n) => r.len() <= n && (r.len() < n ==> forall|id: Address|
            is_outdated(c, id, now, max_age) ==> #[trigger] r.contains(id)),
    }
}

/// The pools of `s`, in order.
pub open spec fn ids_of(s: Seq<(Address, u64)>) -> Seq<Address> {
    s.map_values(|e: (Address, u64)| e.0)
}

/// Request times do not increase along `s`.
pub open spec fn sorted_desc(s: Seq<(Address, u64)>) -> bool {
    forall|a: int, b: int| 0 <= a < b < s.len() ==> #[trigger] s[a].1 >= #[trigger] s[b].1
}

/// No pool occurs twice in `s`.
pub open spec fn distinct_ids(s: Seq<(Address, u64)>) -> bool {
    forall|a: int, b: int| 0 <= a < b < s.len() ==> #[trigger] s[a].0 != #[trigger] s[b].0
}

/// Some of the first `i` entries of `es` has the key `id`.
#[verifier::opaque]
pub open spec fn key_in_prefix(es: Seq<(Address, CachedPool)>, i: int, id: Address) -> bool {
    exists|m: int| 0 <= m < i && m < es.len() && es[m].0 == id
}

/// Some entry of `s` is for `id`.
#[verifier::opaque]
pub open spec fn id_in(s: Seq<(Address, u64)>, id: Address) -> bool {
    exists|a: int| 0 <= a < s.len() && s[a].0 == id
}

/// `s` holds exactly the outdated pools among the first `i` entries of
/// `es`, each with its request time.
#[verifier::opaque]
pub open spec fn covers(
    c: Map<Address, CachedPool>,
    es: Seq<(Address, CachedPool)>,
    i: int,
    s: Seq<(Address, u64)>,
    now: u64,
    max_age: u64,
) -> bool {
    &&& forall|a: int|
        0 <= a < s.len() ==> is_outdated(c, #[trigger] s[a].0, now, max_age) && c[s[a].0].requested_at
            == s[a].1 && key_in_prefix(es, i, s[a].0)
    &&& forall|m: int|
        0 <= m < i && is_outdated(c, #[trigger] es[m].0, now, max_age) ==> id_in(s, es[m].0)
}

proof fn lemma_prefix_grow(es: Seq<(Address, CachedPool)>, i: int, id: Address)
    requires
        0 <= i < es.len(),
    ensures
        key_in_prefix(es, i, id) ==> key_in_prefix(es, i + 1, id),
        key_in_prefix(es, i + 1, es[i].0),
        keys_unique(es) && key_in_prefix(es, i, id) ==> id != es[i].0,
{
    reveal(key_in_prefix);
    assert(es[i].0 == es[i].0);
}

proof fn lemma_id_in_insert(s: Seq<(Address, u64)>, p: int, e: (Address, u64), id: Address)
    requires
        0 <= p <= s.len(),
    ensures
        id_in(s, id) ==> id_in(s.insert(p, e), id),
        id_in(s.insert(p, e), e.0),
{
    reveal(id_in);
    let t = s.insert(p, e);
    assert(t[p].0 == e.0);
    if id_in(s, id) {
        let a = choose|a: int| 0 <= a < s.len() && s[a].0 == id;
        if a < p {
            assert(t[a].0 == id);
        } else {
            assert(t[a + 1].0 == id);
        }
    }
}

/// Inserts `e` after every entry requested at the same time or later.
fn insert_by_recency(sorted: &mut Vec<(Address, u64)>, e: (Address, u64)) -> (p: usize)
    requires
        sorted_desc(old(sorted)@),
    ensures
        p <= old(sorted)@.len(),
        final(sorted)@ == old(sorted)@.insert(p as int, e),
        sorted_desc(final(sorted)@),
{
    let mut p: usize = 0;
    while p < sorted.len() && sorted[p].1 >= e.1
        invariant
            p <= sorted@.len(),
            forall|a: int| 0 <= a < p ==> #[trigger] sorted@[a].1 >= e.1,
        decreases sorted.len() - p,
    {
        p = p + 1;
    }
    let ghost s = sorted@;
    sorted.insert(p, e);
    proof {
        assert forall|a: int, b: int| 0 <= a < b < sorted@.len() implies #[trigger] sorted@[a].1
            >= #[trigger] sorted@[b].1 by {
            if p < s.len() {
                assert(s[p as int].1 < e.1);
            }
            if a < p && b > p {
                assert(s[a].1 >= s[b - 1].1);
            }
            if a > p {
                assert(s[a - 1].1 >= s[b - 1].1);
            }
            if a == p && b > p + 1 {
                assert(s[p as int].1 >= s[b - 1].1);
            }
        }
    }
    p
}

proof fn lemma_covers_insert(
    c: Map<Address, CachedPool>,
    es: Seq<(Address, CachedPool)>,
    i: int,
    s: Seq<(Address, u64)>,
    p: int,
    now: u64,
    max_age: u64,
)
    requires
        keys_unique(es),
        c == assoc_map(es),
        0 <= i < es.len(),
        0 <= p <= s.len(),
        covers(c, es, i, s, now, max_age),
        distinct_ids(s),
        is_outdated(c, es[i].0, now, max_age),
    ensures
        covers(c, es, i + 1, s.insert(p, (es[i].0, es[i].1.requested_at)), now, max_age),
        distinct_ids(s.insert(p, (es[i].0, es[i].1.requested_at))),
{
    reveal(covers);
    lemma_assoc_index(es, i);
    let e = (es[i].0, es[i].1.requested_at);
    let t = s.insert(p, e);
    assert forall|a: int| 0 <= a < s.len() implies #[trigger] s[a].0 != e.0 by {
        lemma_prefix_grow(es, i, s[a].0);
    }
    assert forall|a: int, b: int| 0 <= a < b < t.len() implies #[trigger] t[a].0 != #[trigger] t[b].0 by {
        if a < p && b > p {
            assert(t[b] == s[b - 1]);
        } else if a > p {
            assert(t[a] == s[a - 1] && t[b] == s[b - 1]);
        } else if a == p {
            assert(t[b] == s[b - 1]);
        }
    }
    assert forall|a: int| 0 <= a < t.len() implies is_outdated(c, #[trigger] t[a].0, now, max_age)
        && c[t[a].0].requested_at == t[a].1 && key_in_prefix(es, i + 1, t[a].0) by {
        if a < p {
            assert(t[a] == s[a]);
            lemma_prefix_grow(es, i, s[a].0);
        } else if a > p {
            assert(t[a] == s[a - 1]);
            lemma_prefix_grow(es, i, s[a - 1].0);
        } else {
            lemma_prefix_grow(es, i, e.0);
        }
    }
    assert forall|m: int|
        0 <= m < i + 1 && is_outdated(c, #[trigger] es[m].0, now, max_age) implies id_in(t, es[m].0) by {
        lemma_id_in_insert(s, p, e, es[m].0);
    }
}

proof fn lemma_covers_skip(
    c: Map<Address, CachedPool>,
    es: Seq<(Address, CachedPool)>,
    i: int,
    s: Seq<(Address, u64)>,
    now: u64,
    max_age: u64,
)
    requires
        0 <= i < es.len(),
        covers(c, es, i, s, now, max_age),
        !is_outdated(c, es[i].0, now, max_age),
    ensures
        covers(c, es, i + 1, s, now, max_age),
{
    reveal(covers);
    assert forall|a: int| 0 <= a < s.len() implies key_in_prefix(es, i + 1, #[trigger] s[a].0) by {
        lemma_prefix_grow(es, i, s[a].0);
    }
}

/// The first `cut` pools of a sorted cover of the whole cache are a refresh
/// choice.
proof fn lemma_cut_is_choice(
    c: Map<Address, CachedPool>,
    es: Seq<(Address, CachedPool)>,
    s: Seq<(Address, u64)>,
    cut: int,
    update_size: Option<usize>,
    now: u64,
    max_age: u64,
)
    requires
        c == assoc_map(es),
        covers(c, es, es.len() as int, s, now, max_age),
        sorted_desc(s),
        distinct_ids(s),
        0 <= cut <= s.len(),
        match update_size {
            None => cut == s.len(),
            Some(n) => cut == if n < s.len() { n as int } else { s.len() as int },
        },
    ensures
        is_refresh_choice(c, now, max_age, update_size, ids_of(s.take(cut))),
{
    reveal(covers);
    let r = ids_of(s.take(cut));
    assert forall|x: int| 0 <= x < r.len() implies #[trigger] r[x] == s[x].0 by {}
    assert forall|id: Address| is_outdated(c, id, now, max_age) implies exists|a: int|
        0 <= a < s.len() && #[trigger] s[a].0 == id by {
        lemma_assoc_dom(es, id);
        let m = choose|m: int| 0 <= m < es.len() && es[m].0 == id;
        assert(is_outdated(c, es[m].0, now, max_age));
        assert(id_in(s, es[m].0));
        reveal(id_in);
    }
    assert forall|id: Address, x: int|
        #![trigger is_outdated(c, id, now, max_age), r[x]]
        is_outdated(c, id, now, max_age) && !r.contains(id) && 0 <= x < r.len() implies c[id].requested_at
        <= c[r[x]].requested_at by {
        let a = choose|a: int| 0 <= a < s.len() && #[trigger] s[a].0 == id;
        if a < cut {
            assert(r[a] == id);
        }
        assert(s[x].1 >= s[a].1);
    }
    if cut == s.len() {
        assert forall|id: Address| is_outdated(c, id, now, max_age) implies #[trigger] r.contains(id) by {
            let a = choose|a: int| 0 <= a < s.len() && #[trigger] s[a].0 == id;
            assert(r[a] == id);
        }
    }
    assert forall|x: int, y: int| 0 <= x < y < r.len() implies c[#[trigger] r[x]].requested_at
        >= c[#[trigger] r[y]].requested_at by {
        assert(s[x].1 >= s[y].1);
    }
    assert forall|x: int, y: int| 0 <= x < r.len() && 0 <= y < r.len() && x != y implies r[x] != r[y] by {
        if x < y {
            assert(s[x].0 != s[y].0);
        } else {
            assert(s[y].0 != s[x].0);
        }
    }
}

/// The outdated pools to refresh in one tick at `now`: those refreshed more
/// than `max_age` ago, most recently requested first, cut to `update_size`
/// where it is given.
pub fn recently_used_outdated_pools(
    cache: &PoolCache,
    now: u64,
    max_age: u64,
    update_size: Option<usize>,
) -> (r: Vec<Address>)
    requires
        cache.wf(),
    ensures
        is_refresh_choice(cache@, now, max_age, update_size, r@),
        (forall|id: Address| !is_outdated(cache@, id, now, max_age)) ==> r@.len() == 0,
{
    let ghost c = cache@;
    let ghost es = cache.entries@;
    // Outdated entries by request time, latest first; among equal times in
    // the order of the cache.
    let mut sorted: Vec<(Address, u64)> = Vec::new();
    let mut i: usize = 0;
    proof {
        reveal(covers);
    }
    while i < cache.entries.len()
        invariant
            i <= es.len(),
            es == cache.entries@,
            c == cache@,
            c == assoc_map(es),
            keys_unique(es),
            sorted_desc(sorted@),
            distinct_ids(sorted@),
            covers(c, es, i as int, sorted@, now, max_age),
        decreases es.len() - i,
    {
        let e = &cache.entries[i];
        proof {
            lemma_assoc_index(es, i as int);
        }
        if now.saturating_sub(e.1.updated_at) > max_age {
            let ghost before = sorted@;
            let p = insert_by_recency(&mut sorted, (e.0, e.1.requested_at));
            proof {
                lemma_covers_insert(c, es, i as int, before, p as int, now, max_age);
            }
        } else {
            proof {
                lemma_covers_skip(c, es, i as int, sorted@, now, max_age);
            }
        }
        i = i + 1;
    }
    let cut: usize = match update_size {
        Some(n) => if n < sorted.len() {
            n
        } else {
            sorted.len()
        },
        None => sorted.len(),
    };
    let mut r: Vec<Address> = Vec::new();
    let mut j: usize = 0;
    while j < cut
        invariant
            j <= cut <= sorted@.len(),
            r@ == ids_of(sorted@.take(j as int)),
        decreases cut - j,
    {
        r.push(sorted[j].0);
        j = j + 1;
        proof {
            assert(ids_of(sorted@.take(j as int)) == ids_of(sorted@.take(j - 1)).push(sorted@[j - 1].0));
        }
    }
    proof {
        lemma_cut_is_choice(c, es, sorted@, cut as int, update_size, now, max_age);
        if r@.len() > 0 {
            assert(is_outdated(c, r@[0], now, max_age));
        }
    }
    r
}

/// What a maintenance tick does.
#[derive(Debug, PartialEq, Eq)]
pub enum TickAction {
    /// The fetcher has no owner left: the task ends for good.
    Stop,
    /// Nothing is outdated: no remote query this tick.
    Idle,
    /// Fetch these pools in one query and store them in the cache.
    Refresh(Vec<Address>),
}

/// Plans one tick at `now`. `owner` is the fetcher's cache and staleness
/// threshold, or `None` where its last owner is gone.
pub fn plan_tick(owner: Option<(&PoolCache, u64)>, now: u64, update_size: Option<usize>) -> (r:
    TickAction)
    requires
        owner matches Some((cache, _)) ==> cache.wf(),
    ensures
        owner is None <==> r is Stop,
        owner matches Some((cache, max_age)) ==> match r {
            TickAction::Refresh(ids) => ids@.len() > 0 && is_refresh_choice(
                cache@,
                now,
                max_age,
                update_size,
                ids@,
            ),
            TickAction::Idle => is_refresh_choice(cache@, now, max_age, update_size, Seq::empty()),
            TickAction::Stop => false,
        },
{
    match owner {
        None => TickAction::Stop,
        Some((cache, max_age)) => {
            let ids = recently_used_outdated_pools(cache, now, max_age, update_size);
            if ids.len() == 0 {
                proof {
                    assert(ids@ == Seq::<Address>::empty());
                }
                TickAction::Idle
            } else {
                TickAction::Refresh(ids)
            }
        },
    }
}

/// How long a tick sleeps after it ran for `elapsed`: the rest of the
/// interval, or nothing where the tick ran longer.
pub fn remaining_sleep(update_interval: u64, elapsed: u64) -> (r: u64)
    ensures
        r == saturating_diff(update_interval as int, elapsed as int),
{
    update_interval.saturating_sub(elapsed)
}

} // verus!
