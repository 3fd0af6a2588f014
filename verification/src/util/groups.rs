//! Grouping endpoints by the chain they serve.

use vstd::prelude::*;
use crate::services::evm_rpc::urls_view;
use crate::util::clone_strings;

verus! {

/// Pairs of chain id and URL as character sequences.
pub open spec fn pairs_view(entries: Seq<(String, String)>) -> Seq<(Seq<char>, Seq<char>)> {
    Seq::new(entries.len(), |i: int| (entries[i].0@, entries[i].1@))
}

/// The chain ids of `entries`, each once, in the order in which they first appear.
pub open spec fn chain_ids_of(entries: Seq<(Seq<char>, Seq<char>)>) -> Seq<Seq<char>>
    decreases entries.len(),
{
    if entries.len() == 0 {
        Seq::empty()
    } else if chain_ids_of(entries.drop_last()).contains(entries.last().0) {
        chain_ids_of(entries.drop_last())
    } else {
        chain_ids_of(entries.drop_last()).push(entries.last().0)
    }
}

/// The URLs of the entries of `chain_id`, in their order.
pub open spec fn urls_of_chain(entries: Seq<(Seq<char>, Seq<char>)>, chain_id: Seq<char>) -> Seq<Seq<char>>
    decreases entries.len(),
{
    if entries.len() == 0 {
        Seq::empty()
    } else if entries.last().0 == chain_id {
        urls_of_chain(entries.drop_last(), chain_id).push(entries.last().1)
    } else {
        urls_of_chain(entries.drop_last(), chain_id)
    }
}

pub proof fn lemma_chain_ids_distinct(entries: Seq<(Seq<char>, Seq<char>)>)
    ensures
        chain_ids_of(entries).no_duplicates(),
    decreases entries.len(),
{
    if entries.len() > 0 {
        lemma_chain_ids_distinct(entries.drop_last());
    }
}

/// The index of the group of `chain_id`, if there is one.
fn find_group(groups: &Vec<(String, Vec<String>)>, chain_id: &String) -> (found: Option<usize>)
    ensures
        match found {
            Some(at) => at < groups.len() && groups[at as int].0@ == chain_id@,
            None => forall|k: int| 0 <= k < groups.len() ==> (#[trigger] groups[k]).0@ != chain_id@,
        },
{
    let mut at: usize = 0;
    while at < groups.len()
        invariant
            at <= groups.len(),
            forall|k: int| 0 <= k < at ==> (#[trigger] groups[k]).0@ != chain_id@,
        decreases groups.len() - at,
    {
        if groups[at].0 == *chain_id {
            return Some(at);
        }
        at = at + 1;
    }
    None
}

/// Groups pairs of chain id and URL by chain id. There is one group per chain id,
/// in the order in which the chain ids first appear; a group holds the URLs of its
/// chain, in their order.
pub fn group_by_chain_id(entries: &Vec<(String, String)>) -> (groups: Vec<(String, Vec<String>)>)
    ensures
        groups.len() == chain_ids_of(pairs_view(entries@)).len(),
        forall|g: int|
            0 <= g < groups.len() ==> (#[trigger] groups[g]).0@ == chain_ids_of(pairs_view(entries@))[g]
                && urls_view(groups[g].1@) == urls_of_chain(pairs_view(entries@), groups[g].0@),
{
    let mut groups: Vec<(String, Vec<String>)> = Vec::new();
    let mut i: usize = 0;
    assert(pairs_view(entries@).take(0) =~= Seq::empty());
    while i < entries.len()
        invariant
            i <= entries.len(),
            groups.len() == chain_ids_of(pairs_view(entries@).take(i as int)).len(),
            forall|g: int|
                0 <= g < groups.len() ==> (#[trigger] groups[g]).0@ == chain_ids_of(
                    pairs_view(entries@).take(i as int),
                )[g] && urls_view(groups[g].1@) == urls_of_chain(
                    pairs_view(entries@).take(i as int),
                    groups[g].0@,
                ),
        decreases entries.len() - i,
    {
        let entry = &entries[i];
        let ghost seen = pairs_view(entries@).take(i as int);
        let ghost longer = pairs_view(entries@).take(i + 1);
        let ghost ids = chain_ids_of(seen);
        let ghost before = groups@;
        proof {
            assert(longer.drop_last() =~= seen);
            assert(longer.last() == (entry.0@, entry.1@));
            lemma_chain_ids_distinct(seen);
        }
        match find_group(&groups, &entry.0) {
            Some(at) => {
                let mut urls = clone_strings(&groups[at].1);
                urls.push(entry.1.clone());
                groups.set(at, (entry.0.clone(), urls));
                proof {
                    assert(ids[at as int] == entry.0@);
                    assert(ids.contains(entry.0@));
                    assert(urls_view(urls@) =~= urls_view(before[at as int].1@).push(entry.1@));
                    assert forall|g: int| 0 <= g < groups.len() implies (#[trigger] groups[g]).0@
                        == chain_ids_of(longer)[g] && urls_view(groups[g].1@) == urls_of_chain(
                        longer,
                        groups[g].0@,
                    ) by {
                        if g != at {
                            assert(groups[g] == before[g]);
                            assert(ids[g] != ids[at as int]);
                        }
                    }
                }
            },
            None => {
                let mut urls: Vec<String> = Vec::new();
                urls.push(entry.1.clone());
                groups.push((entry.0.clone(), urls));
                proof {
                    assert(!ids.contains(entry.0@)) by {
                        if ids.contains(entry.0@) {
                            let k = choose|k: int| 0 <= k < ids.len() && ids[k] == entry.0@;
                            assert(before[k].0@ == ids[k]);
                        }
                    }
                    lemma_no_urls_of_unseen_chain(seen, entry.0@);
                    assert(urls_view(urls@) =~= Seq::<Seq<char>>::empty().push(entry.1@));
                    assert forall|g: int| 0 <= g < groups.len() implies (#[trigger] groups[g]).0@
                        == chain_ids_of(longer)[g] && urls_view(groups[g].1@) == urls_of_chain(
                        longer,
                        groups[g].0@,
                    ) by {
                        if g < before.len() {
                            assert(groups[g] == before[g]);
                            assert(ids[g] == before[g].0@);
                            assert(ids.contains(ids[g]));
                        }
                    }
                }
            },
        }
        i = i + 1;
    }
    assert(pairs_view(entries@).take(entries.len() as int) =~= pairs_view(entries@));
    groups
}

proof fn lemma_no_urls_of_unseen_chain(entries: Seq<(Seq<char>, Seq<char>)>, chain_id: Seq<char>)
    requires
        !chain_ids_of(entries).contains(chain_id),
    ensures
        urls_of_chain(entries, chain_id) == Seq::<Seq<char>>::empty(),
    decreases entries.len(),
{
    if entries.len() > 0 {
        let rest = chain_ids_of(entries.drop_last());
        if rest.contains(entries.last().0) {
            lemma_no_urls_of_unseen_chain(entries.drop_last(), chain_id);
        } else {
            let ids = rest.push(entries.last().0);
            assert(ids[rest.len() as int] == entries.last().0);
            assert(entries.last().0 != chain_id);
            if rest.contains(chain_id) {
                let k = choose|k: int| 0 <= k < rest.len() && rest[k] == chain_id;
                assert(ids[k] == chain_id);
            }
            lemma_no_urls_of_unseen_chain(entries.drop_last(), chain_id);
        }
    }
}

} // verus!
