//! Groups of endpoints and the API keys they are reached under.

use vstd::prelude::*;
use crate::services::evm_rpc::EvmRpcCache;

verus! {

/// Some chain has endpoints published under `api_key`.
pub open spec fn has_api_key(
    slots: Map<(Seq<char>, Seq<char>), Seq<Seq<char>>>,
    api_key: Seq<char>,
) -> bool {
    exists|chain_id: Seq<char>| slots.contains_key((api_key, chain_id))
}

/// The lists by API key and chain after `old_api_key` was replaced by
/// `new_api_key`: what was published under the old key stands under the new one
/// and nothing else does; the old key is gone. Where nothing was published under
/// the old key, nothing changes.
pub open spec fn renamed_api_key(
    slots: Map<(Seq<char>, Seq<char>), Seq<Seq<char>>>,
    old_api_key: Seq<char>,
    new_api_key: Seq<char>,
) -> Map<(Seq<char>, Seq<char>), Seq<Seq<char>>> {
    if old_api_key == new_api_key || !has_api_key(slots, old_api_key) {
        slots
    } else {
        Map::new(
            |slot: (Seq<char>, Seq<char>)|
                if slot.0 == new_api_key {
                    slots.contains_key((old_api_key, slot.1))
                } else {
                    slot.0 != old_api_key && slots.contains_key(slot)
                },
            |slot: (Seq<char>, Seq<char>)|
                if slot.0 == new_api_key {
                    slots[(old_api_key, slot.1)]
                } else {
                    slots[slot]
                },
        )
    }
}

/// The part of the ranking store that follows a group when its API key changes.
pub trait GroupCache: EvmRpcCache {
    fn update_api_key(&mut self, old_api_key: &str, new_api_key: &str)
        ensures
            final(self).api_key_rpcs() == renamed_api_key(
                old(self).api_key_rpcs(),
                old_api_key@,
                new_api_key@,
            ),
            final(self).rankings() == old(self).rankings(),
    ;
}

} // verus!
