//! The periodic feed: turning one round of probe results into a ranking.

use vstd::prelude::*;
use crate::models::Rpc;
use crate::services::evm_rpc::{
    EvmRpcCache,
    EvmRpcService,
    HealthCheckError,
    RpcMetrics,
    ranking_view,
    urls_view,
};
use crate::util::clone_strings;
use crate::util::groups::{
    chain_ids_of,
    pairs_view,
    group_by_chain_id,
    lemma_chain_ids_distinct,
    urls_of_chain,
};

verus! {

/// How many endpoints are probed concurrently.
pub const BATCH_SIZE: usize = 100;

/// The latency a probe measured, or `None` where it failed.
pub open spec fn probe_outcome(result: Result<RpcMetrics, HealthCheckError>) -> Option<u128> {
    match result {
        Ok(metrics) => Some(metrics.response_time_ms),
        Err(_) => None,
    }
}

/// Probe results as pairs of endpoint URL and outcome, in the order they came in.
pub open spec fn probes_view(results: Seq<(String, Result<RpcMetrics, HealthCheckError>)>) -> Seq<
    (Seq<char>, Option<u128>),
> {
    Seq::new(results.len(), |i: int| (results[i].0@, probe_outcome(results[i].1)))
}

/// Some entry of `entries` is about `url`.
pub open spec fn has_url<T>(entries: Seq<(Seq<char>, T)>, url: Seq<char>) -> bool {
    exists|i: int| 0 <= i < entries.len() && (#[trigger] entries[i]).0 == url
}

/// An index at which `entries` is about `url`, where there is one.
pub open spec fn index_of_url<T>(entries: Seq<(Seq<char>, T)>, url: Seq<char>) -> int {
    choose|i: int| 0 <= i < entries.len() && (#[trigger] entries[i]).0 == url
}

/// No endpoint has two entries.
pub open spec fn distinct_urls<T>(entries: Seq<(Seq<char>, T)>) -> bool {
    forall|i: int, j: int|
        0 <= i < j < entries.len() ==> (#[trigger] entries[i]).0 != (#[trigger] entries[j]).0
}

/// Ascending latency, which is descending score.
pub open spec fn sorted_by_latency(ranking: Seq<(Seq<char>, u128)>) -> bool {
    forall|i: int, j: int|
        0 <= i <= j < ranking.len() ==> (#[trigger] ranking[i]).1 <= (#[trigger] ranking[j]).1
}

/// The outcome of the last probe of `url` among `probes`, if it was probed at all.
pub open spec fn latest_outcome(probes: Seq<(Seq<char>, Option<u128>)>, url: Seq<char>) -> Option<
    Option<u128>,
>
    decreases probes.len(),
{
    if probes.len() == 0 {
        None
    } else if probes.last().0 == url {
        Some(probes.last().1)
    } else {
        latest_outcome(probes.drop_last(), url)
    }
}

/// Records `entry`: it replaces what was known of its endpoint, or comes last.
pub open spec fn upsert(entries: Seq<(Seq<char>, Option<u128>)>, entry: (Seq<char>, Option<u128>)) -> Seq<
    (Seq<char>, Option<u128>),
> {
    if has_url(entries, entry.0) {
        entries.update(index_of_url(entries, entry.0), entry)
    } else {
        entries.push(entry)
    }
}

/// One entry per endpoint, in the order the endpoints first appeared, each with its
/// latest outcome.
pub open spec fn collect(probes: Seq<(Seq<char>, Option<u128>)>) -> Seq<(Seq<char>, Option<u128>)>
    decreases probes.len(),
{
    if probes.len() == 0 {
        Seq::empty()
    } else {
        upsert(collect(probes.drop_last()), probes.last())
    }
}

/// Where an entry of latency `ms` goes into `ranking`: behind every entry that is
/// not slower than it.
pub open spec fn slot(ranking: Seq<(Seq<char>, u128)>, ms: u128) -> int
    decreases ranking.len(),
{
    if ranking.len() == 0 {
        0
    } else if ranking.last().1 <= ms {
        ranking.len() as int
    } else {
        slot(ranking.drop_last(), ms)
    }
}

/// The successful entries, sorted by ascending latency; among equal latencies the
/// earlier entry stays first.
pub open spec fn rank(entries: Seq<(Seq<char>, Option<u128>)>) -> Seq<(Seq<char>, u128)>
    decreases entries.len(),
{
    if entries.len() == 0 {
        Seq::empty()
    } else {
        let ranked = rank(entries.drop_last());
        match entries.last().1 {
            Some(ms) => ranked.insert(slot(ranked, ms), (entries.last().0, ms)),
            None => ranked,
        }
    }
}

/// The ranking that one round of probe results gives.
pub open spec fn ranking_of(probes: Seq<(Seq<char>, Option<u128>)>) -> Seq<(Seq<char>, u128)> {
    rank(collect(probes))
}

/// A ranking read back as a round of probes that all succeeded.
pub open spec fn as_probes(ranking: Seq<(Seq<char>, u128)>) -> Seq<(Seq<char>, Option<u128>)> {
    Seq::new(ranking.len(), |i: int| (ranking[i].0, Some(ranking[i].1)))
}

proof fn lemma_collect(probes: Seq<(Seq<char>, Option<u128>)>)
    ensures
        distinct_urls(collect(probes)),
        forall|url: Seq<char>|
            has_url(collect(probes), url) <==> (#[trigger] latest_outcome(probes, url)) is Some,
        forall|i: int|
            0 <= i < collect(probes).len() ==> latest_outcome(
                probes,
                (#[trigger] collect(probes)[i]).0,
            ) == Some(collect(probes)[i].1),
    decreases probes.len(),
{
    if probes.len() > 0 {
        let before = collect(probes.drop_last());
        let entry = probes.last();
        let after = collect(probes);
        lemma_collect(probes.drop_last());
        if has_url(before, entry.0) {
            let at = index_of_url(before, entry.0);
            assert(after == before.update(at, entry));
            assert forall|url: Seq<char>|
                has_url(after, url) <==> (#[trigger] latest_outcome(probes, url)) is Some by {
                if has_url(after, url) {
                    let i = index_of_url(after, url);
                    assert(before[i].0 == url);
                }
                if latest_outcome(probes, url) is Some {
                    if entry.0 == url {
                        assert(after[at].0 == url);
                    } else {
                        assert(latest_outcome(probes.drop_last(), url) is Some);
                        assert(has_url(before, url));
                        let i = index_of_url(before, url);
                        assert(after[i].0 == url);
                    }
                }
            }
            assert forall|i: int| 0 <= i < after.len() implies latest_outcome(
                probes,
                (#[trigger] after[i]).0,
            ) == Some(after[i].1) by {
                if i != at {
                    assert(before[i].0 != before[at].0);
                }
            }
        } else {
            assert(after == before.push(entry));
            assert forall|url: Seq<char>|
                has_url(after, url) <==> (#[trigger] latest_outcome(probes, url)) is Some by {
                if has_url(after, url) {
                    let i = index_of_url(after, url);
                    if i < before.len() {
                        assert(before[i].0 == url);
                    }
                }
                if latest_outcome(probes, url) is Some {
                    if entry.0 == url {
                        assert(after[before.len() as int].0 == url);
                    } else {
                        assert(latest_outcome(probes.drop_last(), url) is Some);
                        assert(has_url(before, url));
                        let i = index_of_url(before, url);
                        assert(after[i].0 == url);
                    }
                }
            }
            assert forall|i: int| 0 <= i < after.len() implies latest_outcome(
                probes,
                (#[trigger] after[i]).0,
            ) == Some(after[i].1) by {
                if i < before.len() {
                    assert(before[i].0 != entry.0);
                }
            }
        }
    }
}

proof fn lemma_slot(ranking: Seq<(Seq<char>, u128)>, ms: u128)
    ensures
        0 <= slot(ranking, ms) <= ranking.len(),
        forall|i: int| slot(ranking, ms) <= i < ranking.len() ==> (#[trigger] ranking[i]).1 > ms,
        slot(ranking, ms) > 0 ==> ranking[slot(ranking, ms) - 1].1 <= ms,
    decreases ranking.len(),
{
    if ranking.len() > 0 && ranking.last().1 > ms {
        let rest = ranking.drop_last();
        lemma_slot(rest, ms);
        assert forall|i: int| slot(ranking, ms) <= i < ranking.len() implies (
        #[trigger] ranking[i]).1 > ms by {
            if i < rest.len() {
                assert(rest[i].1 > ms);
            }
        }
    }
}

proof fn lemma_rank(entries: Seq<(Seq<char>, Option<u128>)>)
    requires
        distinct_urls(entries),
    ensures
        sorted_by_latency(rank(entries)),
        distinct_urls(rank(entries)),
        forall|url: Seq<char>, ms: u128|
            #![trigger rank(entries).contains((url, ms))]
            #![trigger entries.contains((url, Some(ms)))]
            rank(entries).contains((url, ms)) <==> entries.contains((url, Some(ms))),
    decreases entries.len(),
{
    if entries.len() > 0 {
        let rest = entries.drop_last();
        let last = entries.last();
        let ranked = rank(rest);
        let after = rank(entries);
        lemma_rank(rest);
        assert forall|url: Seq<char>, ms: u128|
            rest.contains((url, Some(ms))) || (url, Some(ms)) == last
            <==> #[trigger] entries.contains((url, Some(ms))) by {
            if rest.contains((url, Some(ms))) {
                let i = choose|i: int| 0 <= i < rest.len() && rest[i] == (url, Some(ms));
                assert(entries[i] == (url, Some(ms)));
            }
            if (url, Some(ms)) == last {
                assert(entries[entries.len() - 1] == (url, Some(ms)));
            }
            if entries.contains((url, Some(ms))) {
                let i = choose|i: int| 0 <= i < entries.len() && entries[i] == (url, Some(ms));
                if i < rest.len() {
                    assert(rest[i] == (url, Some(ms)));
                }
            }
        }
        match last.1 {
            Some(ms) => {
                let at = slot(ranked, ms);
                let placed = (last.0, ms);
                lemma_slot(ranked, ms);
                assert(after == ranked.insert(at, placed));
                assert forall|i: int| 0 <= i < after.len() implies #[trigger] after[i] == (if i
                    < at {
                    ranked[i]
                } else if i == at {
                    placed
                } else {
                    ranked[i - 1]
                }) by {}
                assert forall|i: int| 0 <= i < at implies (#[trigger] ranked[i]).1 <= ms by {
                    assert(ranked[i].1 <= ranked[at - 1].1);
                }
                assert(sorted_by_latency(after)) by {
                    assert forall|i: int, j: int| 0 <= i <= j < after.len() implies (
                    #[trigger] after[i]).1 <= (#[trigger] after[j]).1 by {
                        if i < at && j > at {
                            assert(ranked[i].1 <= ms);
                            assert(ranked[j - 1].1 > ms);
                        } else if i < at && j < at {
                            assert(ranked[i].1 <= ranked[j].1);
                        } else if i > at && j > at {
                            assert(ranked[i - 1].1 <= ranked[j - 1].1);
                        } else if i == at && j > at {
                            assert(ranked[j - 1].1 > ms);
                        } else if i < at && j == at {
                            assert(ranked[i].1 <= ms);
                        }
                    }
                }
                assert forall|k: int| 0 <= k < ranked.len() implies (#[trigger] ranked[k]).0
                    != last.0 by {
                    assert(ranked.contains((ranked[k].0, ranked[k].1)));
                    assert(rest.contains((ranked[k].0, Some(ranked[k].1))));
                    let i = choose|i: int|
                        0 <= i < rest.len() && rest[i] == (ranked[k].0, Some(ranked[k].1));
                    assert(entries[i].0 != entries[entries.len() - 1].0);
                }
                assert(distinct_urls(after)) by {
                    assert forall|i: int, j: int| 0 <= i < j < after.len() implies (
                    #[trigger] after[i]).0 != (#[trigger] after[j]).0 by {
                        if i < at && j > at {
                            assert(ranked[i].0 != ranked[j - 1].0);
                        } else if i < at && j < at {
                            assert(ranked[i].0 != ranked[j].0);
                        } else if i > at && j > at {
                            assert(ranked[i - 1].0 != ranked[j - 1].0);
                        } else if i == at {
                            assert(ranked[j - 1].0 != last.0);
                        } else {
                            assert(ranked[i].0 != last.0);
                        }
                    }
                }
                assert forall|url: Seq<char>, ms2: u128|
                    #![trigger after.contains((url, ms2))]
                    #![trigger entries.contains((url, Some(ms2)))]
                    after.contains((url, ms2)) <==> entries.contains((url, Some(ms2))) by {
                    if after.contains((url, ms2)) {
                        let i = choose|i: int| 0 <= i < after.len() && after[i] == (url, ms2);
                        if i < at {
                            assert(ranked[i] == (url, ms2));
                        } else if i > at {
                            assert(ranked[i - 1] == (url, ms2));
                        }
                        assert(ranked.contains((url, ms2)) || (url, ms2) == placed);
                    }
                    if ranked.contains((url, ms2)) {
                        let i = choose|i: int| 0 <= i < ranked.len() && ranked[i] == (url, ms2);
                        if i < at {
                            assert(after[i] == (url, ms2));
                        } else {
                            assert(after[i + 1] == (url, ms2));
                        }
                    }
                    if (url, ms2) == placed {
                        assert(after[at] == (url, ms2));
                    }
                }
            },
            None => {
                assert(after == ranked);
            },
        }
    }
}

/// The place at which `url` first appears among `probes`.
pub open spec fn first_probe(probes: Seq<(Seq<char>, Option<u128>)>, url: Seq<char>) -> int
    decreases probes.len(),
{
    if probes.len() == 0 {
        0
    } else if has_url(probes.drop_last(), url) {
        first_probe(probes.drop_last(), url)
    } else {
        probes.len() - 1
    }
}

/// Among equal latencies the endpoint that appeared first comes first.
pub open spec fn ties_in_order_of_appearance(
    ranking: Seq<(Seq<char>, u128)>,
    probes: Seq<(Seq<char>, Option<u128>)>,
) -> bool {
    forall|i: int, j: int|
        0 <= i < j < ranking.len() && (#[trigger] ranking[i]).1 == (#[trigger] ranking[j]).1
            ==> first_probe(probes, ranking[i].0) < first_probe(probes, ranking[j].0)
}

proof fn lemma_probed_has_latest(probes: Seq<(Seq<char>, Option<u128>)>, url: Seq<char>)
    ensures
        has_url(probes, url) <==> latest_outcome(probes, url) is Some,
    decreases probes.len(),
{
    if probes.len() > 0 {
        let rest = probes.drop_last();
        lemma_probed_has_latest(rest, url);
        if has_url(probes, url) && probes.last().0 != url {
            let i = index_of_url(probes, url);
            assert(rest[i].0 == url);
        }
        if has_url(rest, url) {
            let i = index_of_url(rest, url);
            assert(probes[i].0 == url);
        }
        if probes.last().0 == url {
            assert(probes[probes.len() - 1].0 == url);
        }
    }
}

proof fn lemma_first_probe(probes: Seq<(Seq<char>, Option<u128>)>, url: Seq<char>)
    requires
        has_url(probes, url),
    ensures
        0 <= first_probe(probes, url) < probes.len(),
        probes[first_probe(probes, url)].0 == url,
    decreases probes.len(),
{
    let rest = probes.drop_last();
    if has_url(rest, url) {
        lemma_first_probe(rest, url);
    } else {
        let i = index_of_url(probes, url);
        if i < rest.len() {
            assert(rest[i].0 == url);
        }
    }
}

proof fn lemma_collect_in_order_of_appearance(probes: Seq<(Seq<char>, Option<u128>)>)
    ensures
        forall|a: int, b: int|
            0 <= a < b < collect(probes).len() ==> first_probe(
                probes,
                (#[trigger] collect(probes)[a]).0,
            ) < first_probe(probes, (#[trigger] collect(probes)[b]).0),
    decreases probes.len(),
{
    if probes.len() > 0 {
        let rest = probes.drop_last();
        let before = collect(rest);
        let entry = probes.last();
        let after = collect(probes);
        lemma_collect_in_order_of_appearance(rest);
        lemma_collect(rest);
        assert forall|k: int| 0 <= k < before.len() implies has_url(rest, (#[trigger] before[k]).0)
            && first_probe(probes, before[k].0) == first_probe(rest, before[k].0) && first_probe(
            rest,
            before[k].0,
        ) < rest.len() by {
            lemma_probed_has_latest(rest, before[k].0);
            lemma_first_probe(rest, before[k].0);
        }
        if has_url(before, entry.0) {
            let at = index_of_url(before, entry.0);
            assert(after == before.update(at, entry));
            assert forall|a: int, b: int| 0 <= a < b < after.len() implies first_probe(
                probes,
                (#[trigger] after[a]).0,
            ) < first_probe(probes, (#[trigger] after[b]).0) by {
                assert(after[a].0 == before[a].0);
                assert(after[b].0 == before[b].0);
            }
        } else {
            assert(after == before.push(entry));
            assert(!has_url(rest, entry.0)) by {
                lemma_probed_has_latest(rest, entry.0);
            }
            assert forall|a: int, b: int| 0 <= a < b < after.len() implies first_probe(
                probes,
                (#[trigger] after[a]).0,
            ) < first_probe(probes, (#[trigger] after[b]).0) by {
                assert(after[a] == before[a]);
                if b < before.len() {
                    assert(after[b] == before[b]);
                }
            }
        }
    }
}

proof fn lemma_rank_keeps_order(entries: Seq<(Seq<char>, Option<u128>)>)
    requires
        distinct_urls(entries),
    ensures
        forall|i: int|
            0 <= i < rank(entries).len() ==> has_url(entries, (#[trigger] rank(entries)[i]).0),
        forall|i: int, j: int|
            0 <= i < j < rank(entries).len() && (#[trigger] rank(entries)[i]).1 == (
            #[trigger] rank(entries)[j]).1 ==> index_of_url(entries, rank(entries)[i].0)
                < index_of_url(entries, rank(entries)[j].0),
    decreases entries.len(),
{
    if entries.len() > 0 {
        let rest = entries.drop_last();
        let last = entries.last();
        let ranked = rank(rest);
        let after = rank(entries);
        lemma_rank_keeps_order(rest);
        lemma_rank(rest);
        assert forall|k: int| 0 <= k < ranked.len() implies has_url(entries, (#[trigger] ranked[k]).0)
            && index_of_url(entries, ranked[k].0) == index_of_url(rest, ranked[k].0)
            && index_of_url(entries, ranked[k].0) < rest.len() by {
            let at = index_of_url(rest, ranked[k].0);
            assert(entries[at].0 == ranked[k].0);
            let chosen = index_of_url(entries, ranked[k].0);
            if chosen < at {
                assert(entries[chosen].0 != entries[at].0);
            } else if chosen > at {
                assert(entries[at].0 != entries[chosen].0);
            }
        }
        match last.1 {
            Some(ms) => {
                let at = slot(ranked, ms);
                let placed = (last.0, ms);
                lemma_slot(ranked, ms);
                assert(after == ranked.insert(at, placed));
                assert(entries[entries.len() - 1].0 == last.0);
                assert(index_of_url(entries, last.0) == entries.len() - 1) by {
                    let chosen = index_of_url(entries, last.0);
                    if chosen < entries.len() - 1 {
                        assert(entries[chosen].0 != entries[entries.len() - 1].0);
                    }
                }
                assert forall|i: int| 0 <= i < after.len() implies has_url(
                    entries,
                    (#[trigger] after[i]).0,
                ) by {
                    if i < at {
                        assert(after[i] == ranked[i]);
                    } else if i > at {
                        assert(after[i] == ranked[i - 1]);
                    }
                }
                assert forall|i: int, j: int|
                    0 <= i < j < after.len() && (#[trigger] after[i]).1 == (
                    #[trigger] after[j]).1 implies index_of_url(entries, after[i].0)
                    < index_of_url(entries, after[j].0) by {
                    if i < at && j < at {
                        assert(after[i] == ranked[i] && after[j] == ranked[j]);
                    } else if i < at && j == at {
                        assert(after[i] == ranked[i]);
                    } else if i < at && j > at {
                        assert(after[i] == ranked[i] && after[j] == ranked[j - 1]);
                    } else if i == at {
                        assert(after[j] == ranked[j - 1]);
                        assert(ranked[j - 1].1 > ms);
                    } else {
                        assert(after[i] == ranked[i - 1] && after[j] == ranked[j - 1]);
                    }
                }
            },
            None => {
                assert(after == ranked);
            },
        }
    }
}

/// What holds of every ranking the feed publishes: ascending latency, no endpoint
/// twice, exactly the endpoints whose latest probe succeeded, each with the
/// latency that probe measured, and among equal latencies the endpoint first
/// that appeared first.
pub proof fn lemma_ranking_of(probes: Seq<(Seq<char>, Option<u128>)>)
    ensures
        sorted_by_latency(ranking_of(probes)),
        distinct_urls(ranking_of(probes)),
        forall|url: Seq<char>, ms: u128|
            #![trigger ranking_of(probes).contains((url, ms))]
            ranking_of(probes).contains((url, ms)) <==> latest_outcome(probes, url) == Some(
                Some(ms),
            ),
        ties_in_order_of_appearance(ranking_of(probes), probes),
{
    let entries = collect(probes);
    lemma_collect(probes);
    lemma_rank(entries);
    lemma_rank_keeps_order(entries);
    lemma_collect_in_order_of_appearance(probes);
    assert forall|i: int, j: int|
        0 <= i < j < ranking_of(probes).len() && (#[trigger] ranking_of(probes)[i]).1 == (
        #[trigger] ranking_of(probes)[j]).1 implies first_probe(probes, ranking_of(probes)[i].0)
        < first_probe(probes, ranking_of(probes)[j].0) by {
        let a = index_of_url(entries, ranking_of(probes)[i].0);
        let b = index_of_url(entries, ranking_of(probes)[j].0);
        assert(has_url(entries, ranking_of(probes)[i].0));
        assert(has_url(entries, ranking_of(probes)[j].0));
        assert(entries[a].0 == ranking_of(probes)[i].0);
        assert(entries[b].0 == ranking_of(probes)[j].0);
    }
    assert forall|url: Seq<char>, ms: u128|
        #![trigger ranking_of(probes).contains((url, ms))]
        ranking_of(probes).contains((url, ms)) <==> latest_outcome(probes, url) == Some(
            Some(ms),
        ) by {
        if entries.contains((url, Some(ms))) {
            let i = choose|i: int| 0 <= i < entries.len() && entries[i] == (url, Some(ms));
            assert(entries[i].0 == url);
        }
        if latest_outcome(probes, url) == Some(Some(ms)) {
            assert(has_url(entries, url));
            let i = index_of_url(entries, url);
            assert(entries[i] == (url, Some(ms)));
        }
    }
}

/// Collected entries as pairs of endpoint URL and latest outcome.
pub open spec fn entries_view(entries: Seq<(String, Option<RpcMetrics>)>) -> Seq<
    (Seq<char>, Option<u128>),
> {
    Seq::new(
        entries.len(),
        |i: int|
            (
                entries[i].0@,
                match entries[i].1 {
                    Some(metrics) => Some(metrics.response_time_ms),
                    None => None,
                },
            ),
    )
}

/// The index of the entry about `url`, if there is one.
fn position_of(entries: &Vec<(String, Option<RpcMetrics>)>, url: &String) -> (found: Option<usize>)
    ensures
        match found {
            Some(at) => at < entries.len() && entries[at as int].0@ == url@,
            None => !has_url(entries_view(entries@), url@),
        },
{
    let mut at: usize = 0;
    while at < entries.len()
        invariant
            at <= entries.len(),
            forall|k: int| 0 <= k < at ==> (#[trigger] entries_view(entries@)[k]).0 != url@,
        decreases entries.len() - at,
    {
        if entries[at].0 == *url {
            return Some(at);
        }
        at = at + 1;
    }
    None
}

/// Keeps, for each endpoint, the outcome of its latest probe.
fn collect_latest(results: &Vec<(String, Result<RpcMetrics, HealthCheckError>)>) -> (entries: Vec<
    (String, Option<RpcMetrics>),
>)
    ensures
        entries_view(entries@) == collect(probes_view(results@)),
{
    let mut entries: Vec<(String, Option<RpcMetrics>)> = Vec::new();
    let ghost probes = probes_view(results@);
    let mut i: usize = 0;
    assert(probes.take(0) =~= Seq::empty());
    while i < results.len()
        invariant
            i <= results.len(),
            probes == probes_view(results@),
            entries_view(entries@) == collect(probes.take(i as int)),
        decreases results.len() - i,
    {
        let probe = &results[i];
        let outcome = match &probe.1 {
            Ok(metrics) => Some(*metrics),
            Err(_) => None,
        };
        let ghost before = entries_view(entries@);
        let ghost entry = probes[i as int];
        proof {
            lemma_collect(probes.take(i as int));
            assert(probes.take(i + 1).drop_last() =~= probes.take(i as int));
            assert(probes.take(i + 1).last() == entry);
        }
        match position_of(&entries, &probe.0) {
            Some(at) => {
                entries.set(at, (probe.0.clone(), outcome));
                proof {
                    assert(before[at as int].0 == entry.0);
                    assert(index_of_url(before, entry.0) == at) by {
                        let chosen = index_of_url(before, entry.0);
                        if chosen < at {
                            assert(before[chosen].0 != before[at as int].0);
                        } else if chosen > at {
                            assert(before[at as int].0 != before[chosen].0);
                        }
                    }
                    assert(entries_view(entries@) =~= before.update(at as int, entry));
                }
            },
            None => {
                entries.push((probe.0.clone(), outcome));
                proof {
                    assert(entries_view(entries@) =~= before.push(entry));
                }
            },
        }
        i = i + 1;
    }
    assert(probes.take(results.len() as int) =~= probes);
    entries
}

/// Where an entry of latency `ms` goes into `ranking`.
fn slot_for(ranking: &Vec<(String, RpcMetrics)>, ms: u128) -> (at: usize)
    ensures
        at == slot(ranking_view(ranking@), ms),
{
    let ghost ranked = ranking_view(ranking@);
    let mut at: usize = ranking.len();
    assert(ranked.take(at as int) =~= ranked);
    while at > 0 && ranking[at - 1].1.response_time_ms > ms
        invariant
            at <= ranking.len(),
            ranked == ranking_view(ranking@),
            slot(ranked, ms) == slot(ranked.take(at as int), ms),
        decreases at,
    {
        assert(ranked.take(at as int).drop_last() =~= ranked.take(at - 1));
        at = at - 1;
    }
    at
}

/// Sorts the successful entries by ascending latency.
fn rank_entries(entries: &Vec<(String, Option<RpcMetrics>)>) -> (ranking: Vec<(String, RpcMetrics)>)
    ensures
        ranking_view(ranking@) == rank(entries_view(entries@)),
{
    let mut ranking: Vec<(String, RpcMetrics)> = Vec::new();
    let ghost all = entries_view(entries@);
    let mut i: usize = 0;
    assert(all.take(0) =~= Seq::empty());
    assert(ranking_view(ranking@) =~= Seq::empty());
    while i < entries.len()
        invariant
            i <= entries.len(),
            all == entries_view(entries@),
            ranking_view(ranking@) == rank(all.take(i as int)),
        decreases entries.len() - i,
    {
        let ghost before = ranking_view(ranking@);
        proof {
            assert(all.take(i + 1).drop_last() =~= all.take(i as int));
            assert(all.take(i + 1).last() == all[i as int]);
        }
        match entries[i].1 {
            Some(metrics) => {
                let at = slot_for(&ranking, metrics.response_time_ms);
                proof {
                    lemma_slot(before, metrics.response_time_ms);
                }
                ranking.insert(at, (entries[i].0.clone(), metrics));
                proof {
                    assert(ranking_view(ranking@) =~= before.insert(
                        at as int,
                        (all[i as int].0, metrics.response_time_ms),
                    ));
                }
            },
            None => {},
        }
        i = i + 1;
    }
    assert(all.take(entries.len() as int) =~= all);
    ranking
}

/// Ranks one round of probe results. Where an endpoint was probed more than once
/// the latest result counts; endpoints whose probe failed are left out; the rest
/// come by ascending latency, and among equal latencies in the order in which the
/// endpoints first appeared.
pub fn rank_rpcs(results: &Vec<(String, Result<RpcMetrics, HealthCheckError>)>) -> (ranking: Vec<
    (String, RpcMetrics),
>)
    ensures
        ranking_view(ranking@) == ranking_of(probes_view(results@)),
        sorted_by_latency(ranking_view(ranking@)),
        distinct_urls(ranking_view(ranking@)),
        forall|url: Seq<char>, ms: u128|
            #![trigger ranking_view(ranking@).contains((url, ms))]
            ranking_view(ranking@).contains((url, ms)) <==> latest_outcome(
                probes_view(results@),
                url,
            ) == Some(Some(ms)),
        ties_in_order_of_appearance(ranking_view(ranking@), probes_view(results@)),
{
    let entries = collect_latest(results);
    let ranking = rank_entries(&entries);
    proof {
        lemma_ranking_of(probes_view(results@));
    }
    ranking
}

proof fn lemma_collect_of_ranking(ranking: Seq<(Seq<char>, u128)>)
    requires
        distinct_urls(ranking),
    ensures
        collect(as_probes(ranking)) == as_probes(ranking),
    decreases ranking.len(),
{
    if ranking.len() > 0 {
        let rest = ranking.drop_last();
        let last = as_probes(ranking).last();
        assert(distinct_urls(rest)) by {
            assert forall|i: int, j: int| 0 <= i < j < rest.len() implies (#[trigger] rest[i]).0 != (
            #[trigger] rest[j]).0 by {
                assert(ranking[i].0 != ranking[j].0);
            }
        }
        lemma_collect_of_ranking(rest);
        assert(as_probes(ranking).drop_last() =~= as_probes(rest));
        if has_url(as_probes(rest), last.0) {
            let i = index_of_url(as_probes(rest), last.0);
            assert(ranking[i].0 != ranking[ranking.len() - 1].0);
        }
        assert(as_probes(rest).push(last) =~= as_probes(ranking));
    } else {
        assert(as_probes(ranking) =~= Seq::empty());
    }
}

proof fn lemma_rank_of_ranking(ranking: Seq<(Seq<char>, u128)>)
    requires
        sorted_by_latency(ranking),
    ensures
        rank(as_probes(ranking)) == ranking,
    decreases ranking.len(),
{
    if ranking.len() > 0 {
        let rest = ranking.drop_last();
        assert(sorted_by_latency(rest)) by {
            assert forall|i: int, j: int| 0 <= i <= j < rest.len() implies (#[trigger] rest[i]).1 <= (
            #[trigger] rest[j]).1 by {
                assert(ranking[i].1 <= ranking[j].1);
            }
        }
        lemma_rank_of_ranking(rest);
        assert(as_probes(ranking).drop_last() =~= as_probes(rest));
        if rest.len() > 0 {
            assert(ranking[rest.len() - 1].1 <= ranking[ranking.len() - 1].1);
        }
        assert(slot(rest, ranking.last().1) == rest.len());
        assert(rest.insert(rest.len() as int, ranking.last()) =~= ranking);
    } else {
        assert(as_probes(ranking) =~= Seq::empty());
        assert(ranking =~= Seq::empty());
    }
}

/// Ranking is idempotent: a published ranking, read back as a round of successful
/// probes and ranked again, is published unchanged.
pub proof fn lemma_ranking_idempotent(probes: Seq<(Seq<char>, Option<u128>)>)
    ensures
        ranking_of(as_probes(ranking_of(probes))) == ranking_of(probes),
{
    lemma_ranking_of(probes);
    lemma_collect_of_ranking(ranking_of(probes));
    lemma_rank_of_ranking(ranking_of(probes));
}

proof fn lemma_latest_of_member(probes: Seq<(Seq<char>, Option<u128>)>, k: int)
    requires
        0 <= k < probes.len(),
    ensures
        latest_outcome(probes, probes[k].0) is Some,
    decreases probes.len(),
{
    if probes.last().0 != probes[k].0 {
        lemma_latest_of_member(probes.drop_last(), k);
    }
}

proof fn lemma_latest_append(
    first: Seq<(Seq<char>, Option<u128>)>,
    second: Seq<(Seq<char>, Option<u128>)>,
    url: Seq<char>,
)
    ensures
        latest_outcome(first + second, url) == (if latest_outcome(second, url) is Some {
            latest_outcome(second, url)
        } else {
            latest_outcome(first, url)
        }),
    decreases second.len(),
{
    if second.len() == 0 {
        assert(first + second =~= first);
    } else {
        assert((first + second).drop_last() =~= first + second.drop_last());
        lemma_latest_append(first, second.drop_last(), url);
    }
}

/// The endpoints of `entries`, in order.
pub open spec fn urls_of<T>(entries: Seq<(Seq<char>, T)>) -> Seq<Seq<char>> {
    Seq::new(entries.len(), |i: int| entries[i].0)
}

proof fn lemma_collect_keeps_urls(
    first: Seq<(Seq<char>, Option<u128>)>,
    second: Seq<(Seq<char>, Option<u128>)>,
)
    requires
        forall|k: int| 0 <= k < second.len() ==> latest_outcome(first, (#[trigger] second[k]).0) is Some,
    ensures
        urls_of(collect(first + second)) == urls_of(collect(first)),
    decreases second.len(),
{
    if second.len() == 0 {
        assert(first + second =~= first);
    } else {
        let rest = second.drop_last();
        let entry = second.last();
        assert forall|k: int| 0 <= k < rest.len() implies latest_outcome(
            first,
            (#[trigger] rest[k]).0,
        ) is Some by {
            assert(rest[k] == second[k]);
        }
        lemma_collect_keeps_urls(first, rest);
        assert((first + second).drop_last() =~= first + rest);
        let before = collect(first + rest);
        lemma_collect(first);
        assert(second[second.len() - 1] == entry);
        assert(has_url(collect(first), entry.0));
        let i = index_of_url(collect(first), entry.0);
        assert(before.len() == urls_of(before).len());
        assert(collect(first).len() == urls_of(collect(first)).len());
        assert(urls_of(before)[i] == urls_of(collect(first))[i]);
        assert(before[i].0 == entry.0);
        assert(urls_of(before.update(index_of_url(before, entry.0), entry)) =~= urls_of(before));
    }
}

/// A round fed in twice in a row gives the ranking that it gives fed in once.
pub proof fn lemma_round_repeated(probes: Seq<(Seq<char>, Option<u128>)>)
    ensures
        ranking_of(probes + probes) == ranking_of(probes),
{
    let once = collect(probes);
    let twice = collect(probes + probes);
    assert forall|k: int| 0 <= k < probes.len() implies latest_outcome(
        probes,
        (#[trigger] probes[k]).0,
    ) is Some by {
        lemma_latest_of_member(probes, k);
    }
    lemma_collect_keeps_urls(probes, probes);
    lemma_collect(probes);
    lemma_collect(probes + probes);
    assert(twice.len() == urls_of(twice).len());
    assert(once.len() == urls_of(once).len());
    assert forall|i: int| 0 <= i < once.len() implies twice[i] == once[i] by {
        assert(urls_of(twice)[i] == urls_of(once)[i]);
        lemma_latest_append(probes, probes, once[i].0);
        assert(latest_outcome(probes, once[i].0) == Some(once[i].1));
        assert(latest_outcome(probes + probes, twice[i].0) == Some(twice[i].1));
    }
    assert(twice =~= once);
}

/// The bounds of the `index`-th batch of `len` endpoints taken `batch_size` at a
/// time: where it starts and where it ends.
pub open spec fn batch_bounds(len: int, batch_size: int, index: int) -> (int, int) {
    (
        index * batch_size,
        if (index + 1) * batch_size < len {
            (index + 1) * batch_size
        } else {
            len
        },
    )
}

/// How many batches `len` endpoints make.
pub open spec fn batch_count(len: int, batch_size: int) -> int {
    (len + batch_size - 1) / batch_size
}

/// Cuts `len` endpoints into consecutive batches of `batch_size`; only the last
/// batch may be shorter, and none is empty. Each batch is given by the index of
/// its first endpoint and the index behind its last.
pub fn batch_ranges(len: usize, batch_size: usize) -> (ranges: Vec<(usize, usize)>)
    requires
        batch_size > 0,
    ensures
        ranges.len() == batch_count(len as int, batch_size as int),
        forall|k: int|
            0 <= k < ranges.len() ==> (#[trigger] ranges[k]).0 == batch_bounds(
                len as int,
                batch_size as int,
                k,
            ).0 && ranges[k].1 == batch_bounds(len as int, batch_size as int, k).1,
        forall|k: int| 0 <= k < ranges.len() ==> (#[trigger] ranges[k]).0 < ranges[k].1 <= len,
{
    let mut ranges: Vec<(usize, usize)> = Vec::new();
    let mut start: usize = 0;
    assert(ranges.len() * batch_size == 0) by (nonlinear_arith)
        requires
            ranges.len() == 0,
    ;
    while start < len
        invariant
            batch_size > 0,
            start <= len,
            start == ranges.len() * batch_size,
            start == len ==> ranges.len() == 0,
            forall|k: int|
                0 <= k < ranges.len() ==> (#[trigger] ranges[k]).0 == batch_bounds(
                    len as int,
                    batch_size as int,
                    k,
                ).0 && ranges[k].1 == batch_bounds(len as int, batch_size as int, k).1,
            forall|k: int| 0 <= k < ranges.len() ==> (#[trigger] ranges[k]).0 < ranges[k].1 <= len,
        decreases len - start,
    {
        let ghost index = ranges.len() as int;
        let end: usize = if len - start > batch_size {
            start + batch_size
        } else {
            len
        };
        proof {
            assert((index + 1) * batch_size == index * batch_size + batch_size)
                by (nonlinear_arith);
        }
        ranges.push((start, end));
        if end == len {
            proof {
                lemma_batch_count(len as int, batch_size as int, index);
            }
            return ranges;
        }
        start = end;
    }
    proof {
        assert(start == 0) by (nonlinear_arith)
            requires
                start == ranges.len() * batch_size,
                ranges.len() == 0,
        ;
        assert((0 + batch_size - 1) / (batch_size as int) == 0) by (nonlinear_arith)
            requires
                batch_size > 0,
        ;
    }
    ranges
}

proof fn lemma_batch_count(len: int, batch_size: int, index: int)
    requires
        batch_size > 0,
        0 <= index,
        index * batch_size < len <= (index + 1) * batch_size,
    ensures
        batch_count(len, batch_size) == index + 1,
{
    assert((len + batch_size - 1) / batch_size == index + 1) by (nonlinear_arith)
        requires
            batch_size > 0,
            0 <= index,
            index * batch_size < len <= (index + 1) * batch_size,
    ;
}

/// The results of one round in the order of the candidates: for each candidate
/// that was probed, in its place among the candidates, the outcome of its latest
/// probe. In which order the results arrived plays no part.
pub open spec fn in_candidate_order(
    candidates: Seq<Seq<char>>,
    arrived: Seq<(Seq<char>, Option<u128>)>,
) -> Seq<(Seq<char>, Option<u128>)>
    decreases candidates.len(),
{
    if candidates.len() == 0 {
        Seq::empty()
    } else {
        let before = in_candidate_order(candidates.drop_last(), arrived);
        match latest_outcome(arrived, candidates.last()) {
            Some(outcome) => before.push((candidates.last(), outcome)),
            None => before,
        }
    }
}

/// The ranking that a feed tick publishes for a chain: the ranking of its
/// results, taken in the order of its candidates.
pub open spec fn tick_ranking(
    candidates: Seq<Seq<char>>,
    arrived: Seq<(Seq<char>, Option<u128>)>,
) -> Seq<(Seq<char>, u128)> {
    ranking_of(in_candidate_order(candidates, arrived))
}

/// The latest result of `url` among `arrived`, if it was probed.
fn latest_result(arrived: &Vec<(String, Result<RpcMetrics, HealthCheckError>)>, url: &String) -> (found:
    Option<Result<RpcMetrics, HealthCheckError>>)
    ensures
        match found {
            Some(result) => latest_outcome(probes_view(arrived@), url@) == Some(
                probe_outcome(result),
            ),
            None => latest_outcome(probes_view(arrived@), url@) is None,
        },
{
    let ghost probes = probes_view(arrived@);
    let mut at: usize = arrived.len();
    assert(probes.take(at as int) =~= probes);
    while at > 0
        invariant
            at <= arrived.len(),
            probes == probes_view(arrived@),
            latest_outcome(probes, url@) == latest_outcome(probes.take(at as int), url@),
        decreases at,
    {
        proof {
            assert(probes.take(at as int).drop_last() =~= probes.take(at - 1));
            assert(probes.take(at as int).last() == probes[at - 1]);
        }
        if arrived[at - 1].0 == *url {
            return Some(arrived[at - 1].1);
        }
        at = at - 1;
    }
    None
}

/// Puts the results of one round into the order of the candidates.
pub fn results_in_candidate_order(
    candidates: &Vec<String>,
    arrived: &Vec<(String, Result<RpcMetrics, HealthCheckError>)>,
) -> (results: Vec<(String, Result<RpcMetrics, HealthCheckError>)>)
    ensures
        probes_view(results@) == in_candidate_order(urls_view(candidates@), probes_view(arrived@)),
{
    let ghost urls = urls_view(candidates@);
    let mut results: Vec<(String, Result<RpcMetrics, HealthCheckError>)> = Vec::new();
    let mut i: usize = 0;
    assert(urls.take(0) =~= Seq::empty());
    assert(probes_view(results@) =~= Seq::empty());
    while i < candidates.len()
        invariant
            i <= candidates.len(),
            urls == urls_view(candidates@),
            probes_view(results@) == in_candidate_order(
                urls.take(i as int),
                probes_view(arrived@),
            ),
        decreases candidates.len() - i,
    {
        let ghost before = probes_view(results@);
        proof {
            assert(urls.take(i + 1).drop_last() =~= urls.take(i as int));
            assert(urls.take(i + 1).last() == candidates[i as int]@);
        }
        match latest_result(arrived, &candidates[i]) {
            Some(result) => {
                results.push((candidates[i].clone(), result));
                assert(probes_view(results@) =~= before.push(
                    (candidates[i as int]@, probe_outcome(result)),
                ));
            },
            None => {},
        }
        i = i + 1;
    }
    assert(urls.take(candidates.len() as int) =~= urls);
    results
}

/// Ends a feed tick for `chain_id`: ranks the results that arrived for its
/// candidates and publishes the ranking, in place of the one before. Nothing
/// else in the store changes. The results are taken in the order of the
/// candidates, so that the order in which the probes came back plays no part.
pub fn publish_ranking<C: EvmRpcCache>(
    evm_rpc_service: &mut EvmRpcService<C>,
    chain_id: &str,
    candidates: &Vec<String>,
    arrived: &Vec<(String, Result<RpcMetrics, HealthCheckError>)>,
)
    ensures
        final(evm_rpc_service).evm_cache.rankings() == old(
            evm_rpc_service,
        ).evm_cache.rankings().insert(
            chain_id@,
            tick_ranking(urls_view(candidates@), probes_view(arrived@)),
        ),
        final(evm_rpc_service).evm_cache.api_key_rpcs() == old(
            evm_rpc_service,
        ).evm_cache.api_key_rpcs(),
{
    let results = results_in_candidate_order(candidates, arrived);
    let ranking = rank_rpcs(&results);
    evm_rpc_service.set_rpcs_for_chain_id_cache(chain_id, ranking);
}

/// Two rounds in which every endpoint has the same latest outcome come to the
/// same results in candidate order, whatever the order in which they arrived.
pub proof fn lemma_arrival_order_is_immaterial(
    candidates: Seq<Seq<char>>,
    first: Seq<(Seq<char>, Option<u128>)>,
    second: Seq<(Seq<char>, Option<u128>)>,
)
    requires
        forall|url: Seq<char>| #[trigger] latest_outcome(first, url) == latest_outcome(second, url),
    ensures
        in_candidate_order(candidates, first) == in_candidate_order(candidates, second),
    decreases candidates.len(),
{
    if candidates.len() > 0 {
        lemma_arrival_order_is_immaterial(candidates.drop_last(), first, second);
        assert(latest_outcome(first, candidates.last()) == latest_outcome(
            second,
            candidates.last(),
        ));
    }
}

/// Two feed ticks with the same candidates, in which every probe has the same
/// result, publish the same ranking, entry by entry and ties included.
pub proof fn lemma_same_tick_same_ranking(
    rankings: Map<Seq<char>, Seq<(Seq<char>, u128)>>,
    chain_id: Seq<char>,
    candidates: Seq<Seq<char>>,
    first: Seq<(Seq<char>, Option<u128>)>,
    second: Seq<(Seq<char>, Option<u128>)>,
)
    requires
        forall|url: Seq<char>| #[trigger] latest_outcome(first, url) == latest_outcome(second, url),
    ensures
        tick_ranking(candidates, first) == tick_ranking(candidates, second),
        rankings.insert(chain_id, tick_ranking(candidates, first)).insert(
            chain_id,
            tick_ranking(candidates, second),
        ) == rankings.insert(chain_id, tick_ranking(candidates, first)),
{
    lemma_arrival_order_is_immaterial(candidates, first, second);
    assert(rankings.insert(chain_id, tick_ranking(candidates, first)).insert(
        chain_id,
        tick_ranking(candidates, second),
    ) =~= rankings.insert(chain_id, tick_ranking(candidates, first)));
}

/// Among the results in candidate order an endpoint has the latest outcome that
/// arrived for it where it is a candidate, and none where it is not.
pub proof fn lemma_latest_in_candidate_order(
    candidates: Seq<Seq<char>>,
    arrived: Seq<(Seq<char>, Option<u128>)>,
    url: Seq<char>,
)
    ensures
        latest_outcome(in_candidate_order(candidates, arrived), url) == (if candidates.contains(
            url,
        ) {
            latest_outcome(arrived, url)
        } else {
            None
        }),
    decreases candidates.len(),
{
    if candidates.len() > 0 {
        let rest = candidates.drop_last();
        lemma_latest_in_candidate_order(rest, arrived, url);
        assert(candidates[candidates.len() - 1] == candidates.last());
        if rest.contains(url) {
            let k = choose|k: int| 0 <= k < rest.len() && rest[k] == url;
            assert(candidates[k] == url);
        }
        if candidates.contains(url) && candidates.last() != url {
            let k = choose|k: int| 0 <= k < candidates.len() && candidates[k] == url;
            assert(rest[k] == url);
        }
        let before = in_candidate_order(rest, arrived);
        match latest_outcome(arrived, candidates.last()) {
            Some(outcome) => {
                let ordered = before.push((candidates.last(), outcome));
                assert(ordered.drop_last() =~= before);
                assert(ordered.last() == (candidates.last(), outcome));
            },
            None => {},
        }
    }
}

/// What a feed tick publishes for a chain: by ascending latency and with no
/// endpoint twice, exactly the candidates whose latest probe succeeded, each with
/// the latency that probe measured.
pub proof fn lemma_tick_ranking(candidates: Seq<Seq<char>>, arrived: Seq<(Seq<char>, Option<u128>)>)
    ensures
        sorted_by_latency(tick_ranking(candidates, arrived)),
        distinct_urls(tick_ranking(candidates, arrived)),
        forall|url: Seq<char>, ms: u128|
            #![trigger tick_ranking(candidates, arrived).contains((url, ms))]
            tick_ranking(candidates, arrived).contains((url, ms)) <==> candidates.contains(url)
                && latest_outcome(arrived, url) == Some(Some(ms)),
{
    lemma_ranking_of(in_candidate_order(candidates, arrived));
    assert forall|url: Seq<char>, ms: u128|
        #![trigger tick_ranking(candidates, arrived).contains((url, ms))]
        tick_ranking(candidates, arrived).contains((url, ms)) <==> candidates.contains(url)
            && latest_outcome(arrived, url) == Some(Some(ms)) by {
        lemma_latest_in_candidate_order(candidates, arrived, url);
    }
}

/// Publishing the same round twice in a row leaves the store as publishing it
/// once does: the second ranking is the first.
pub proof fn lemma_publish_twice(
    rankings: Map<Seq<char>, Seq<(Seq<char>, u128)>>,
    chain_id: Seq<char>,
    candidates: Seq<Seq<char>>,
    arrived: Seq<(Seq<char>, Option<u128>)>,
)
    ensures
        rankings.insert(chain_id, tick_ranking(candidates, arrived)).insert(
            chain_id,
            tick_ranking(candidates, arrived),
        ) == rankings.insert(chain_id, tick_ranking(candidates, arrived)),
{
    assert(rankings.insert(chain_id, tick_ranking(candidates, arrived)).insert(
        chain_id,
        tick_ranking(candidates, arrived),
    ) =~= rankings.insert(chain_id, tick_ranking(candidates, arrived)));
}

/// How often an endpoint is tried in one probe.
pub const HEALTH_CHECK_TRIES: u32 = 3;

/// When the rankings are refreshed: every five minutes.
pub const RPC_FEED_SCHEDULE: &'static str = "0 */5 * * * *";

/// When the outbound proxy is rotated: every quarter of an hour.
pub const PROXY_UPDATER_SCHEDULE: &'static str = "0 */15 * * * *";

/// The endpoints of `rpcs` as pairs of chain id and URL.
pub open spec fn rpc_entries(rpcs: Seq<Rpc>) -> Seq<(Seq<char>, Seq<char>)> {
    Seq::new(rpcs.len(), |i: int| (rpcs[i].chain_id@, rpcs[i].url@))
}

/// Groups endpoints by the chain they serve. There is one group per chain id, in
/// the order in which the chain ids first appear; a group holds the URLs of the
/// endpoints of its chain, in their order.
pub fn group_rpcs_by_chain_id(rpcs: &Vec<Rpc>) -> (groups: Vec<(String, Vec<String>)>)
    ensures
        groups.len() == chain_ids_of(rpc_entries(rpcs@)).len(),
        forall|g: int|
            0 <= g < groups.len() ==> (#[trigger] groups[g]).0@ == chain_ids_of(
                rpc_entries(rpcs@),
            )[g] && urls_view(groups[g].1@) == urls_of_chain(rpc_entries(rpcs@), groups[g].0@),
{
    let mut entries: Vec<(String, String)> = Vec::new();
    let mut i: usize = 0;
    while i < rpcs.len()
        invariant
            i <= rpcs.len(),
            entries.len() == i,
            forall|k: int|
                0 <= k < i ==> (#[trigger] entries[k]).0@ == rpcs[k].chain_id@ && entries[k].1@
                    == rpcs[k].url@,
        decreases rpcs.len() - i,
    {
        entries.push((rpcs[i].chain_id.clone(), rpcs[i].url.clone()));
        i = i + 1;
    }
    assert(pairs_view(entries@) =~= rpc_entries(rpcs@));
    group_by_chain_id(&entries)
}

/// The store's lists by API key and chain after the endpoints `rpcs` of `api_key`
/// were published: each chain that `rpcs` has endpoints for holds those, and
/// every other slot is as it was.
pub open spec fn with_api_key_rpcs(
    slots: Map<(Seq<char>, Seq<char>), Seq<Seq<char>>>,
    api_key: Seq<char>,
    rpcs: Seq<Rpc>,
) -> Map<(Seq<char>, Seq<char>), Seq<Seq<char>>> {
    Map::new(
        |slot: (Seq<char>, Seq<char>)|
            slots.contains_key(slot) || (slot.0 == api_key && chain_ids_of(rpc_entries(rpcs)).contains(slot.1)),
        |slot: (Seq<char>, Seq<char>)|
            if slot.0 == api_key && chain_ids_of(rpc_entries(rpcs)).contains(slot.1) {
                urls_of_chain(rpc_entries(rpcs), slot.1)
            } else {
                slots[slot]
            },
    )
}

/// Publishes the endpoints registered under `api_key`, chain by chain. An empty
/// key names nobody: nothing is published for it. The rankings stay as they are.
pub fn publish_api_key_rpcs<C: EvmRpcCache>(
    evm_rpc_service: &mut EvmRpcService<C>,
    api_key: &str,
    rpcs: &Vec<Rpc>,
)
    ensures
        final(evm_rpc_service).evm_cache.rankings() == old(evm_rpc_service).evm_cache.rankings(),
        final(evm_rpc_service).evm_cache.api_key_rpcs() == (if api_key@.len() == 0 {
            old(evm_rpc_service).evm_cache.api_key_rpcs()
        } else {
            with_api_key_rpcs(old(evm_rpc_service).evm_cache.api_key_rpcs(), api_key@, rpcs@)
        }),
{
    let groups = group_rpcs_by_chain_id(rpcs);
    let ghost before = evm_rpc_service.evm_cache.api_key_rpcs();
    let ghost ids = chain_ids_of(rpc_entries(rpcs@));
    proof {
        lemma_chain_ids_distinct(rpc_entries(rpcs@));
    }
    let mut g: usize = 0;
    while g < groups.len()
        invariant
            g <= groups.len(),
            groups.len() == ids.len(),
            ids == chain_ids_of(rpc_entries(rpcs@)),
            ids.no_duplicates(),
            forall|k: int|
                0 <= k < groups.len() ==> (#[trigger] groups[k]).0@ == ids[k] && urls_view(
                    groups[k].1@,
                ) == urls_of_chain(rpc_entries(rpcs@), ids[k]),
            evm_rpc_service.evm_cache.rankings() == old(evm_rpc_service).evm_cache.rankings(),
            api_key@.len() == 0 ==> evm_rpc_service.evm_cache.api_key_rpcs() == before,
            api_key@.len() > 0 ==> evm_rpc_service.evm_cache.api_key_rpcs() =~= Map::new(
                |slot: (Seq<char>, Seq<char>)|
                    before.contains_key(slot) || (slot.0 == api_key@ && ids.take(g as int).contains(
                        slot.1,
                    )),
                |slot: (Seq<char>, Seq<char>)|
                    if slot.0 == api_key@ && ids.take(g as int).contains(slot.1) {
                        urls_of_chain(rpc_entries(rpcs@), slot.1)
                    } else {
                        before[slot]
                    },
            ),
        decreases groups.len() - g,
    {
        let urls = clone_strings(&groups[g].1);
        proof {
            assert(urls_view(urls@) =~= urls_view(groups[g as int].1@));
            let shorter = ids.take(g as int);
            let longer = ids.take(g + 1);
            assert forall|id: Seq<char>|
                longer.contains(id) <==> shorter.contains(id) || id == ids[g as int] by {
                if longer.contains(id) {
                    let k = choose|k: int| 0 <= k < longer.len() && longer[k] == id;
                    if k < g {
                        assert(shorter[k] == id);
                    }
                }
                if shorter.contains(id) {
                    let k = choose|k: int| 0 <= k < shorter.len() && shorter[k] == id;
                    assert(longer[k] == id);
                }
                if id == ids[g as int] {
                    assert(longer[g as int] == id);
                }
            }
        }
        evm_rpc_service.set_rpcs_for_api_key_cache(api_key, groups[g].0.as_str(), urls);
        g = g + 1;
    }
    proof {
        assert(ids.take(groups.len() as int) =~= ids);
        if api_key@.len() > 0 {
            assert(evm_rpc_service.evm_cache.api_key_rpcs() =~= with_api_key_rpcs(
                before,
                api_key@,
                rpcs@,
            ));
        }
    }
}

} // verus!
