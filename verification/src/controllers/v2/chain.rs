//! Routing a call on the endpoints registered under an API key.

use vstd::prelude::*;
use crate::controllers::v1::chain::{
    RouteCall,
    RouteModel,
    check_supported,
    is_supported,
    no_rpc_message,
    unsupported_chain_message,
};
use crate::services::evm_rpc::{EvmRpcCache, EvmRpcService, urls_view};
use crate::util::controllers::{ResponseError, STATUS_BAD_REQUEST, STATUS_INTERNAL_SERVER_ERROR};

verus! {

/// Starts a call for `chain_id` once the ranking store has been asked for the
/// endpoints of the caller's API key on that chain: `rpcs` is what the store gave.
pub fn route_rpcs(
    chain_id: &str,
    supported_chain_ids: &Vec<String>,
    rpcs: Option<Vec<String>>,
    base_timeout_ms: u32,
) -> (call: Result<RouteCall, ResponseError>)
    ensures
        match call {
            Ok(call) => is_supported(supported_chain_ids@, chain_id@) && rpcs is Some
                && call.chain() == chain_id@ && call@ == RouteModel::initial(
                urls_view(rpcs->0@),
                base_timeout_ms as int,
            ),
            Err(error) => if !is_supported(supported_chain_ids@, chain_id@) {
                error.status == STATUS_BAD_REQUEST && error.error@ == unsupported_chain_message(
                    chain_id@,
                )
            } else {
                rpcs is None && error.status == STATUS_INTERNAL_SERVER_ERROR && error.error@
                    == no_rpc_message(chain_id@)
            },
        },
{
    match check_supported(chain_id, supported_chain_ids) {
        Err(error) => Err(error),
        Ok(()) => RouteCall::new(chain_id, rpcs, base_timeout_ms),
    }
}

/// Starts routing a call for `chain_id` on behalf of `api_key`: the chain has to
/// be supported, and the ranking store has to hold the key's endpoints on it. The
/// call then walks those endpoints in their order.
pub fn post_chain<C: EvmRpcCache>(
    chain_id: &str,
    api_key: &str,
    evm_rpc_service: &EvmRpcService<C>,
    supported_chain_ids: &Vec<String>,
    base_timeout_ms: u32,
) -> (call: Result<RouteCall, ResponseError>)
    ensures
        match call {
            Ok(call) => is_supported(supported_chain_ids@, chain_id@)
                && evm_rpc_service.evm_cache.api_key_rpcs().contains_key((api_key@, chain_id@))
                && call.chain() == chain_id@ && call@ == RouteModel::initial(
                evm_rpc_service.evm_cache.api_key_rpcs()[(api_key@, chain_id@)],
                base_timeout_ms as int,
            ),
            Err(error) => if !is_supported(supported_chain_ids@, chain_id@) {
                error.status == STATUS_BAD_REQUEST && error.error@ == unsupported_chain_message(
                    chain_id@,
                )
            } else {
                error.status == STATUS_INTERNAL_SERVER_ERROR && error.error@ == no_rpc_message(
                    chain_id@,
                )
            },
        },
{
    match check_supported(chain_id, supported_chain_ids) {
        Err(error) => Err(error),
        Ok(()) => {
            let rpcs = evm_rpc_service.get_rpcs_for_api_key_cache(api_key, chain_id);
            route_rpcs(chain_id, supported_chain_ids, rpcs, base_timeout_ms)
        },
    }
}

} // verus!
