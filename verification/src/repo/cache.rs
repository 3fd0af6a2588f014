//! The in-memory ranking store.

use vstd::prelude::*;
use crate::models::monitoring::Monitoring;
use crate::services::evm_rpc::{EvmRpcCache, RpcMetrics, ranking_view, urls_view};
use crate::services::group::{GroupCache, has_api_key, renamed_api_key};
use crate::services::monitoring::MonitoringCache;
use crate::util::{clone_strings, str_equal};

verus! {

/// How many rankings the store keeps at most.
pub const RANKING_CAPACITY: u64 = 1024;

#[verifier::external_type_specification]
#[verifier::external_body]
#[verifier::reject_recursive_types(K)]
#[verifier::reject_recursive_types(V)]
#[verifier::reject_recursive_types(S)]
pub struct ExCache<K, V, S>(moka::sync::Cache<K, V, S>);

/// What was last inserted into a cache under each key. The cache may have dropped
/// any of it since.
pub uninterp spec fn inserted(cache: moka::sync::Cache<String, Vec<(String, u128)>>) -> Map<
    Seq<char>,
    Seq<(Seq<char>, u128)>,
>;

/// Pairs of endpoint URL and latency, the URL as a character sequence.
pub open spec fn pairs_view(pairs: Seq<(String, u128)>) -> Seq<(Seq<char>, u128)> {
    Seq::new(pairs.len(), |i: int| (pairs[i].0@, pairs[i].1))
}

/// `moka::sync::Cache::builder`, `CacheBuilder::max_capacity` and
/// `CacheBuilder::build`: a cache bounded by `max_capacity` entries, into which
/// nothing was inserted yet.
#[verifier::external_body]
fn bounded_cache(max_capacity: u64) -> (cache: moka::sync::Cache<String, Vec<(String, u128)>>)
    ensures
        inserted(cache) =~= Map::empty(),
{
    moka::sync::Cache::builder().max_capacity(max_capacity).build()
}

/// `moka::sync::Cache::insert`: `value` becomes what was last inserted under
/// `key`; what was last inserted under other keys stays.
#[verifier::external_body]
fn cache_insert(
    cache: &mut moka::sync::Cache<String, Vec<(String, u128)>>,
    key: String,
    value: Vec<(String, u128)>,
)
    ensures
        inserted(*final(cache)) == inserted(*old(cache)).insert(key@, pairs_view(value@)),
{
    cache.insert(key, value)
}

/// `moka::sync::Cache::get`: a copy of what the cache holds under `key`. The cache
/// may hold nothing under it; what it holds is what was last inserted under it.
#[verifier::external_body]
fn cache_get(cache: &moka::sync::Cache<String, Vec<(String, u128)>>, key: &str) -> (value: Option<
    Vec<(String, u128)>,
>)
    ensures
        value is Some ==> inserted(*cache).contains_key(key@) && pairs_view(value->0@) == inserted(
            *cache,
        )[key@],
{
    cache.get(key)
}

/// The endpoints registered under one API key for one chain.
struct ApiKeySlot {
    api_key: String,
    chain_id: String,
    rpcs: Vec<String>,
}

spec fn slot_key(slot: ApiKeySlot) -> (Seq<char>, Seq<char>) {
    (slot.api_key@, slot.chain_id@)
}

spec fn has_slot(slots: Seq<ApiKeySlot>, key: (Seq<char>, Seq<char>)) -> bool {
    exists|i: int| 0 <= i < slots.len() && slot_key(#[trigger] slots[i]) == key
}

spec fn slot_index(slots: Seq<ApiKeySlot>, key: (Seq<char>, Seq<char>)) -> int {
    choose|i: int| 0 <= i < slots.len() && slot_key(#[trigger] slots[i]) == key
}

spec fn distinct_slots(slots: Seq<ApiKeySlot>) -> bool {
    forall|i: int, j: int|
        0 <= i < j < slots.len() ==> slot_key(#[trigger] slots[i]) != slot_key(#[trigger] slots[j])
}

spec fn slots_map(slots: Seq<ApiKeySlot>) -> Map<(Seq<char>, Seq<char>), Seq<Seq<char>>> {
    Map::new(
        |key: (Seq<char>, Seq<char>)| has_slot(slots, key),
        |key: (Seq<char>, Seq<char>)| urls_view(slots[slot_index(slots, key)].rpcs@),
    )
}

/// The index of the slot of `api_key` and `chain_id`, if there is one.
fn find_slot(slots: &Vec<ApiKeySlot>, api_key: &str, chain_id: &str) -> (found: Option<usize>)
    ensures
        match found {
            Some(at) => at < slots.len() && slot_key(slots[at as int]) == (api_key@, chain_id@),
            None => !has_slot(slots@, (api_key@, chain_id@)),
        },
{
    let mut at: usize = 0;
    while at < slots.len()
        invariant
            at <= slots.len(),
            forall|k: int| 0 <= k < at ==> slot_key(#[trigger] slots[k]) != (api_key@, chain_id@),
        decreases slots.len() - at,
    {
        if str_equal(slots[at].api_key.as_str(), api_key) && str_equal(
            slots[at].chain_id.as_str(),
            chain_id,
        ) {
            return Some(at);
        }
        at = at + 1;
    }
    None
}

/// A ranking as the cache stores it.
fn to_pairs(ranking: &Vec<(String, RpcMetrics)>) -> (pairs: Vec<(String, u128)>)
    ensures
        pairs_view(pairs@) == ranking_view(ranking@),
{
    let mut pairs: Vec<(String, u128)> = Vec::new();
    let mut i: usize = 0;
    while i < ranking.len()
        invariant
            i <= ranking.len(),
            pairs.len() == i,
            forall|k: int|
                0 <= k < i ==> (#[trigger] pairs[k]).0@ == ranking[k].0@ && pairs[k].1
                    == ranking[k].1.response_time_ms,
        decreases ranking.len() - i,
    {
        pairs.push((ranking[i].0.clone(), ranking[i].1.response_time_ms));
        i = i + 1;
    }
    assert(pairs_view(pairs@) =~= ranking_view(ranking@));
    pairs
}

/// A ranking as the cache gives it back.
fn from_pairs(pairs: &Vec<(String, u128)>) -> (ranking: Vec<(String, RpcMetrics)>)
    ensures
        ranking_view(ranking@) == pairs_view(pairs@),
{
    let mut ranking: Vec<(String, RpcMetrics)> = Vec::new();
    let mut i: usize = 0;
    while i < pairs.len()
        invariant
            i <= pairs.len(),
            ranking.len() == i,
            forall|k: int|
                0 <= k < i ==> (#[trigger] ranking[k]).0@ == pairs[k].0@
                    && ranking[k].1.response_time_ms == pairs[k].1,
        decreases pairs.len() - i,
    {
        ranking.push((pairs[i].0.clone(), RpcMetrics { response_time_ms: pairs[i].1 }));
        i = i + 1;
    }
    assert(ranking_view(ranking@) =~= pairs_view(pairs@));
    ranking
}

/// The endpoints of every API key by chain id. No pair of key and chain has two
/// slots.
struct ApiKeyRpcs {
    slots: Vec<ApiKeySlot>,
}

impl ApiKeyRpcs {
    #[verifier::type_invariant]
    spec fn well_formed(self) -> bool {
        distinct_slots(self.slots@)
    }

    spec fn published(self) -> Map<(Seq<char>, Seq<char>), Seq<Seq<char>>> {
        slots_map(self.slots@)
    }

    fn new() -> (rpcs: Self)
        ensures
            rpcs.published() =~= Map::empty(),
    {
        Self { slots: Vec::new() }
    }

    fn get(&self, api_key: &str, chain_id: &str) -> (rpcs: Option<Vec<String>>)
        ensures
            rpcs is Some <==> self.published().contains_key((api_key@, chain_id@)),
            rpcs is Some ==> urls_view(rpcs->0@) == self.published()[(api_key@, chain_id@)],
    {
        proof {
            use_type_invariant(self);
        }
        match find_slot(&self.slots, api_key, chain_id) {
            Some(at) => {
                let rpcs = clone_strings(&self.slots[at].rpcs);
                proof {
                    let slots = self.slots@;
                    let key = (api_key@, chain_id@);
                    let chosen = slot_index(slots, key);
                    assert(slot_key(slots[at as int]) == key);
                    if chosen < at {
                        assert(slot_key(slots[chosen]) != slot_key(slots[at as int]));
                    } else if chosen > at {
                        assert(slot_key(slots[at as int]) != slot_key(slots[chosen]));
                    }
                    assert(urls_view(rpcs@) =~= urls_view(slots[at as int].rpcs@));
                }
                Some(rpcs)
            },
            None => None,
        }
    }

    fn set(&mut self, api_key: &str, chain_id: &str, rpcs: Vec<String>)
        ensures
            final(self).published() == old(self).published().insert(
                (api_key@, chain_id@),
                urls_view(rpcs@),
            ),
    {
        proof {
            use_type_invariant(&*self);
        }
        let ghost before = self.slots@;
        let ghost key = (api_key@, chain_id@);
        let slot = ApiKeySlot {
            api_key: String::from_str(api_key),
            chain_id: String::from_str(chain_id),
            rpcs,
        };
        let found = find_slot(&self.slots, api_key, chain_id);
        let ghost at = match found {
            Some(at) => at as int,
            None => before.len() as int,
        };
        let mut slots: Vec<ApiKeySlot> = Vec::new();
        core::mem::swap(&mut slots, &mut self.slots);
        match found {
            Some(at) => {
                slots.set(at, slot);
                proof {
                    assert forall|i: int, j: int| 0 <= i < j < slots.len() implies slot_key(
                        #[trigger] slots[i],
                    ) != slot_key(#[trigger] slots[j]) by {
                        assert(slot_key(slots[i]) == slot_key(before[i]));
                        assert(slot_key(slots[j]) == slot_key(before[j]));
                    }
                }
            },
            None => {
                slots.push(slot);
                proof {
                    assert forall|i: int, j: int| 0 <= i < j < slots.len() implies slot_key(
                        #[trigger] slots[i],
                    ) != slot_key(#[trigger] slots[j]) by {
                        if j < before.len() {
                            assert(slot_key(slots[i]) == slot_key(before[i]));
                            assert(slot_key(slots[j]) == slot_key(before[j]));
                        } else {
                            assert(slots[i] == before[i]);
                        }
                    }
                }
            },
        }
        self.slots = slots;
        proof {
            lemma_slot_written(before, self.slots@, at, key, urls_view(rpcs@));
        }
    }

    fn rename(&mut self, old_api_key: &str, new_api_key: &str)
        ensures
            final(self).published() == renamed_api_key(
                old(self).published(),
                old_api_key@,
                new_api_key@,
            ),
    {
        proof {
            use_type_invariant(&*self);
        }
        let ghost before = self.slots@;
        if str_equal(old_api_key, new_api_key) {
            return ;
        }
        let mut found = false;
        let mut i: usize = 0;
        while i < self.slots.len()
            invariant
                i <= self.slots.len(),
                self.slots@ == before,
                found <==> exists|k: int| 0 <= k < i && (#[trigger] before[k]).api_key@ == old_api_key@,
            decreases self.slots.len() - i,
        {
            if str_equal(self.slots[i].api_key.as_str(), old_api_key) {
                found = true;
            }
            i = i + 1;
        }
        if !found {
            proof {
                if has_api_key(slots_map(before), old_api_key@) {
                    let chain_id = choose|chain_id: Seq<char>|
                        slots_map(before).contains_key((old_api_key@, chain_id));
                    let k = slot_index(before, (old_api_key@, chain_id));
                    assert(before[k].api_key@ == old_api_key@);
                }
            }
            return ;
        }
        let mut slots: Vec<ApiKeySlot> = Vec::new();
        core::mem::swap(&mut slots, &mut self.slots);
        let mut kept: Vec<ApiKeySlot> = Vec::new();
        let mut i: usize = 0;
        while i < slots.len()
            invariant
                i <= slots.len(),
                slots@ == before,
                distinct_slots(before),
                distinct_slots(kept@),
                old_api_key@ != new_api_key@,
                forall|j: int|
                    0 <= j < kept.len() ==> came_from(
                        before,
                        i as int,
                        #[trigger] kept[j],
                        old_api_key@,
                        new_api_key@,
                    ),
                forall|k: int|
                    0 <= k < i && (#[trigger] before[k]).api_key@ != new_api_key@ ==> went_to(
                        kept@,
                        before[k],
                        old_api_key@,
                        new_api_key@,
                    ),
            decreases slots.len() - i,
        {
            let ghost so_far = kept@;
            if !str_equal(slots[i].api_key.as_str(), new_api_key) {
                let api_key = if str_equal(slots[i].api_key.as_str(), old_api_key) {
                    String::from_str(new_api_key)
                } else {
                    slots[i].api_key.clone()
                };
                let slot = ApiKeySlot {
                    api_key,
                    chain_id: slots[i].chain_id.clone(),
                    rpcs: clone_strings(&slots[i].rpcs),
                };
                proof {
                    assert(urls_view(slot.rpcs@) =~= urls_view(before[i as int].rpcs@));
                    assert(moved(before[i as int], slot, old_api_key@, new_api_key@));
                    assert forall|j: int| 0 <= j < so_far.len() implies slot_key(
                        #[trigger] so_far[j],
                    ) != slot_key(slot) by {
                        let k = choose|k: int|
                            0 <= k < i && #[trigger] moved(
                                before[k],
                                so_far[j],
                                old_api_key@,
                                new_api_key@,
                            );
                        assert(slot_key(before[k]) != slot_key(before[i as int]));
                    }
                }
                kept.push(slot);
                proof {
                    assert forall|j: int| 0 <= j < kept.len() implies came_from(
                        before,
                        i + 1,
                        #[trigger] kept[j],
                        old_api_key@,
                        new_api_key@,
                    ) by {
                        if j < so_far.len() {
                            assert(kept[j] == so_far[j]);
                            let k = choose|k: int|
                                0 <= k < i && #[trigger] moved(
                                    before[k],
                                    so_far[j],
                                    old_api_key@,
                                    new_api_key@,
                                );
                            assert(moved(before[k], kept[j], old_api_key@, new_api_key@));
                        } else {
                            assert(moved(before[i as int], kept[j], old_api_key@, new_api_key@));
                        }
                    }
                    assert forall|k: int|
                        0 <= k < i + 1 && (#[trigger] before[k]).api_key@
                            != new_api_key@ implies went_to(
                        kept@,
                        before[k],
                        old_api_key@,
                        new_api_key@,
                    ) by {
                        if k < i {
                            let j = choose|j: int|
                                0 <= j < so_far.len() && #[trigger] moved(
                                    before[k],
                                    so_far[j],
                                    old_api_key@,
                                    new_api_key@,
                                );
                            assert(kept[j] == so_far[j]);
                            assert(moved(before[k], kept[j], old_api_key@, new_api_key@));
                        } else {
                            assert(moved(
                                before[k],
                                kept[so_far.len() as int],
                                old_api_key@,
                                new_api_key@,
                            ));
                        }
                    }
                    assert forall|a: int, b: int| 0 <= a < b < kept.len() implies slot_key(
                        #[trigger] kept[a],
                    ) != slot_key(#[trigger] kept[b]) by {
                        if b < so_far.len() {
                            assert(kept[a] == so_far[a] && kept[b] == so_far[b]);
                        } else {
                            assert(kept[a] == so_far[a]);
                        }
                    }
                }
            }
            i = i + 1;
        }
        self.slots = kept;
        proof {
            lemma_slots_renamed(before, self.slots@, old_api_key@, new_api_key@);
        }
    }
}

/// The in-memory store: a bounded cache of rankings by chain id, the endpoints
/// of each API key by chain id, and the request counters.
pub struct CacheRepo {
    chain_id_to_rpcs_cache: moka::sync::Cache<String, Vec<(String, u128)>>,
    monitoring: Monitoring,
    api_key_to_rpcs: ApiKeyRpcs,
}

impl CacheRepo {
    /// A store that holds nothing, with all counters at zero.
    pub fn new() -> (repo: Self)
        ensures
            repo.rankings() =~= Map::empty(),
            repo.api_key_rpcs() =~= Map::empty(),
            repo.monitoring() == (Monitoring {
                income_requests: 0,
                success_income_requests: 0,
                error_income_requests: 0,
            }),
    {
        Self {
            chain_id_to_rpcs_cache: bounded_cache(RANKING_CAPACITY),
            monitoring: Monitoring::new(),
            api_key_to_rpcs: ApiKeyRpcs::new(),
        }
    }
}

impl EvmRpcCache for CacheRepo {
    closed spec fn rankings(&self) -> Map<Seq<char>, Seq<(Seq<char>, u128)>> {
        inserted(self.chain_id_to_rpcs_cache)
    }

    closed spec fn api_key_rpcs(&self) -> Map<(Seq<char>, Seq<char>), Seq<Seq<char>>> {
        self.api_key_to_rpcs.published()
    }

    /// The endpoints of `api_key` on `chain_id`: this store drops none of them.
    fn get_rpcs_for_api_key(&self, api_key: &str, chain_id: &str) -> (rpcs: Option<Vec<String>>)
        ensures
            rpcs is Some <==> self.api_key_rpcs().contains_key((api_key@, chain_id@)),
    {
        self.api_key_to_rpcs.get(api_key, chain_id)
    }

    fn set_rpcs_for_api_key(&mut self, api_key: &str, chain_id: &str, rpcs: Vec<String>) {
        self.api_key_to_rpcs.set(api_key, chain_id, rpcs);
    }

    fn get_rpcs_for_chain_id(&self, chain_id: &str) -> (rpcs: Option<Vec<(String, RpcMetrics)>>) {
        cached_ranking(cache_get(&self.chain_id_to_rpcs_cache, chain_id))
    }

    fn set_rpcs_for_chain_id(&mut self, chain_id: &str, rpcs: Vec<(String, RpcMetrics)>) {
        let pairs = to_pairs(&rpcs);
        cache_insert(&mut self.chain_id_to_rpcs_cache, String::from_str(chain_id), pairs);
    }
}

/// What a read of the bounded cache gives the caller: the ranking that the cache
/// gave, entry by entry, and nothing where the cache gave nothing.
pub fn cached_ranking(cached: Option<Vec<(String, u128)>>) -> (rpcs: Option<
    Vec<(String, RpcMetrics)>,
>)
    ensures
        rpcs is Some <==> cached is Some,
        cached is Some ==> ranking_view(rpcs->0@) == pairs_view(cached->0@),
{
    match cached {
        Some(pairs) => Some(from_pairs(&pairs)),
        None => None,
    }
}

/// `to` is what becomes of the slot `from` when `old_api_key` is replaced by
/// `new_api_key`.
spec fn moved(from: ApiKeySlot, to: ApiKeySlot, old_api_key: Seq<char>, new_api_key: Seq<char>) -> bool {
    &&& from.api_key@ != new_api_key
    &&& to.api_key@ == (if from.api_key@ == old_api_key {
        new_api_key
    } else {
        from.api_key@
    })
    &&& to.chain_id@ == from.chain_id@
    &&& urls_view(to.rpcs@) == urls_view(from.rpcs@)
}

/// Some slot of `before` became `to`.
spec fn came_from(
    before: Seq<ApiKeySlot>,
    count: int,
    to: ApiKeySlot,
    old_api_key: Seq<char>,
    new_api_key: Seq<char>,
) -> bool {
    exists|k: int| 0 <= k < count && #[trigger] moved(before[k], to, old_api_key, new_api_key)
}

/// `from` became some slot of `after`.
spec fn went_to(
    after: Seq<ApiKeySlot>,
    from: ApiKeySlot,
    old_api_key: Seq<char>,
    new_api_key: Seq<char>,
) -> bool {
    exists|j: int|
        0 <= j < after.len() && #[trigger] moved(from, after[j], old_api_key, new_api_key)
}

proof fn lemma_slot_lookup(slots: Seq<ApiKeySlot>, at: int)
    requires
        distinct_slots(slots),
        0 <= at < slots.len(),
    ensures
        has_slot(slots, slot_key(slots[at])),
        slot_index(slots, slot_key(slots[at])) == at,
        slots_map(slots)[slot_key(slots[at])] == urls_view(slots[at].rpcs@),
{
    let chosen = slot_index(slots, slot_key(slots[at]));
    if chosen < at {
        assert(slot_key(slots[chosen]) != slot_key(slots[at]));
    } else if chosen > at {
        assert(slot_key(slots[at]) != slot_key(slots[chosen]));
    }
}

proof fn lemma_slots_renamed(
    before: Seq<ApiKeySlot>,
    after: Seq<ApiKeySlot>,
    old_api_key: Seq<char>,
    new_api_key: Seq<char>,
)
    requires
        distinct_slots(before),
        distinct_slots(after),
        old_api_key != new_api_key,
        exists|k: int| 0 <= k < before.len() && (#[trigger] before[k]).api_key@ == old_api_key,
        forall|j: int|
            0 <= j < after.len() ==> came_from(
                before,
                before.len() as int,
                #[trigger] after[j],
                old_api_key,
                new_api_key,
            ),
        forall|k: int|
            0 <= k < before.len() && (#[trigger] before[k]).api_key@ != new_api_key ==> went_to(
                after,
                before[k],
                old_api_key,
                new_api_key,
            ),
    ensures
        slots_map(after) == renamed_api_key(slots_map(before), old_api_key, new_api_key),
{
    let slots = slots_map(before);
    let expected = renamed_api_key(slots, old_api_key, new_api_key);
    let witness = choose|k: int|
        0 <= k < before.len() && (#[trigger] before[k]).api_key@ == old_api_key;
    lemma_slot_lookup(before, witness);
    assert(slots.contains_key((old_api_key, before[witness].chain_id@)));
    assert(has_api_key(slots, old_api_key));
    assert forall|slot: (Seq<char>, Seq<char>)|
        slots_map(after).contains_key(slot) <==> expected.contains_key(slot) by {
        if has_slot(after, slot) {
            let j = slot_index(after, slot);
            let k = choose|k: int|
                0 <= k < before.len() && #[trigger] moved(
                    before[k],
                    after[j],
                    old_api_key,
                    new_api_key,
                );
            lemma_slot_lookup(before, k);
        }
        if expected.contains_key(slot) {
            let from = if slot.0 == new_api_key {
                (old_api_key, slot.1)
            } else {
                slot
            };
            let k = slot_index(before, from);
            assert(slot_key(before[k]) == from);
            let j = choose|j: int|
                0 <= j < after.len() && #[trigger] moved(
                    before[k],
                    after[j],
                    old_api_key,
                    new_api_key,
                );
            lemma_slot_lookup(after, j);
        }
    }
    assert forall|slot: (Seq<char>, Seq<char>)| #[trigger]
        slots_map(after).contains_key(slot) implies slots_map(after)[slot] == expected[slot] by {
        let j = slot_index(after, slot);
        lemma_slot_lookup(after, j);
        let k = choose|k: int|
            0 <= k < before.len() && #[trigger] moved(
                before[k],
                after[j],
                old_api_key,
                new_api_key,
            );
        lemma_slot_lookup(before, k);
    }
    assert(slots_map(after) =~= expected);
}

proof fn lemma_slot_written(
    before: Seq<ApiKeySlot>,
    after: Seq<ApiKeySlot>,
    at: int,
    key: (Seq<char>, Seq<char>),
    rpcs: Seq<Seq<char>>,
)
    requires
        distinct_slots(before),
        distinct_slots(after),
        0 <= at <= before.len(),
        at < before.len() ==> slot_key(before[at]) == key && after.len() == before.len(),
        at == before.len() ==> !has_slot(before, key) && after.len() == before.len() + 1,
        slot_key(after[at]) == key,
        urls_view(after[at].rpcs@) == rpcs,
        forall|i: int| 0 <= i < before.len() && i != at ==> #[trigger] after[i] == before[i],
    ensures
        slots_map(after) == slots_map(before).insert(key, rpcs),
{
    let expected = slots_map(before).insert(key, rpcs);
    assert forall|other: (Seq<char>, Seq<char>)|
        slots_map(after).contains_key(other) <==> expected.contains_key(other) by {
        if has_slot(after, other) {
            let i = slot_index(after, other);
            if i != at {
                assert(slot_key(before[i]) == other);
            }
        }
        if has_slot(before, other) {
            let i = slot_index(before, other);
            if i != at {
                assert(slot_key(after[i]) == other);
            } else {
                assert(slot_key(after[at]) == other);
            }
        }
        if other == key {
            assert(slot_key(after[at]) == other);
        }
    }
    assert forall|other: (Seq<char>, Seq<char>)| #[trigger]
        slots_map(after).contains_key(other) implies slots_map(after)[other] == expected[other] by {
        let i = slot_index(after, other);
        if other == key {
            if i < at {
                assert(slot_key(after[i]) != slot_key(after[at]));
            } else if i > at {
                assert(slot_key(after[at]) != slot_key(after[i]));
            }
        } else {
            assert(i != at);
            assert(slot_key(before[i]) == other);
            let j = slot_index(before, other);
            if i < j {
                assert(slot_key(before[i]) != slot_key(before[j]));
            } else if i > j {
                assert(slot_key(before[j]) != slot_key(before[i]));
            }
        }
    }
    assert(slots_map(after) =~= expected);
}

impl GroupCache for CacheRepo {
    fn update_api_key(&mut self, old_api_key: &str, new_api_key: &str) {
        self.api_key_to_rpcs.rename(old_api_key, new_api_key);
    }
}

impl MonitoringCache for CacheRepo {
    closed spec fn monitoring(&self) -> Monitoring {
        self.monitoring
    }

    fn get_monitoring(&self) -> (monitoring: Monitoring) {
        self.monitoring
    }

    fn increment_income_requests(&mut self) {
        self.monitoring.income_requests = self.monitoring.income_requests + 1;
    }

    fn increment_success_income_requests(&mut self) {
        self.monitoring.success_income_requests = self.monitoring.success_income_requests + 1;
    }

    fn increment_error_income_requests(&mut self) {
        self.monitoring.error_income_requests = self.monitoring.error_income_requests + 1;
    }
}

} // verus!
