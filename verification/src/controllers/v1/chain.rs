//! Routing a call to the best endpoints known for its chain.
//!
//! A call walks the ranked endpoints of its chain twice: first with the base
//! timeout, then with twice that. The first endpoint that answers serves the
//! call. What is decided here is which endpoint comes next and with which
//! timeout; sending the request is the caller's part.

use vstd::prelude::*;
use crate::crons::urls_of;
use crate::services::evm_rpc::{EvmRpcCache, EvmRpcService, RpcMetrics, ranking_view, urls_view};
use crate::util::{clone_strings, concat3, contains_string};
use crate::util::controllers::{
    ResponseData,
    ResponseError,
    STATUS_BAD_REQUEST,
    STATUS_INTERNAL_SERVER_ERROR,
};

verus! {

/// How often the ranked endpoints are walked before a call is given up.
pub const ROUTE_PASSES: u8 = 2;

/// The message for a chain the gateway does not serve.
pub open spec fn unsupported_chain_message(chain_id: Seq<char>) -> Seq<char> {
    "chainId "@ + chain_id + " is not supported yet"@
}

/// The message for a chain that has no ranking yet.
pub open spec fn no_rpc_message(chain_id: Seq<char>) -> Seq<char> {
    "No rpc provided for chainId "@ + chain_id + ""@
}

/// The message for a call that no endpoint answered.
pub open spec fn exhausted_message(chain_id: Seq<char>) -> Seq<char> {
    "failed to request all RPCs for chainId: "@ + chain_id + ""@
}

/// Whether `chain_id` is one of `supported_chain_ids`.
pub open spec fn is_supported(supported_chain_ids: Seq<String>, chain_id: Seq<char>) -> bool {
    exists|i: int|
        0 <= i < supported_chain_ids.len() && (#[trigger] supported_chain_ids[i])@ == chain_id
}

/// How far a call has come: the endpoints it may try, the base timeout, the pass
/// it is in and the endpoint that is next. A pass beyond the second means that the
/// call is exhausted.
pub struct RouteModel {
    pub rpcs: Seq<Seq<char>>,
    pub base_timeout_ms: int,
    pub pass: int,
    pub index: int,
}

/// How a call ended: the attempts it took in each pass and, where an endpoint
/// answered, the pass and the endpoint's place in the ranking.
pub struct RouteOutcome {
    pub first_pass_attempts: int,
    pub second_pass_attempts: int,
    pub served_by: Option<(int, int)>,
}

impl RouteModel {
    /// A call that has tried nothing yet.
    pub open spec fn initial(rpcs: Seq<Seq<char>>, base_timeout_ms: int) -> RouteModel {
        RouteModel {
            rpcs,
            base_timeout_ms,
            pass: if rpcs.len() == 0 {
                ROUTE_PASSES + 1
            } else {
                1
            },
            index: 0,
        }
    }

    pub open spec fn inv(self) -> bool {
        &&& 1 <= self.pass <= ROUTE_PASSES + 1
        &&& self.pass <= ROUTE_PASSES ==> 0 <= self.index < self.rpcs.len()
        &&& self.pass > ROUTE_PASSES ==> self.index == 0
    }

    /// No endpoint is left to try.
    pub open spec fn exhausted(self) -> bool {
        self.pass > ROUTE_PASSES
    }

    /// The timeout of the next attempt: the base timeout in the first pass, twice
    /// that in the second.
    pub open spec fn timeout_ms(self) -> int {
        self.base_timeout_ms * self.pass
    }

    /// The call after its next attempt has failed: on to the next endpoint, or to
    /// the first endpoint of the next pass.
    pub open spec fn after_failure(self) -> RouteModel {
        if self.exhausted() {
            self
        } else if self.index + 1 < self.rpcs.len() {
            RouteModel { index: self.index + 1, ..self }
        } else {
            RouteModel { pass: self.pass + 1, index: 0, ..self }
        }
    }

    /// The call run to its end against endpoints that behave as `succeeds` says,
    /// by pass and by place in the ranking.
    pub open spec fn run(self, succeeds: spec_fn(int, int) -> bool) -> RouteOutcome
        decreases ROUTE_PASSES + 1 - self.pass, self.rpcs.len() - self.index,
    {
        if self.exhausted() || !self.inv() {
            RouteOutcome { first_pass_attempts: 0, second_pass_attempts: 0, served_by: None }
        } else {
            let rest = if succeeds(self.pass, self.index) {
                RouteOutcome {
                    first_pass_attempts: 0,
                    second_pass_attempts: 0,
                    served_by: Some((self.pass, self.index)),
                }
            } else {
                self.after_failure().run(succeeds)
            };
            if self.pass == 1 {
                RouteOutcome { first_pass_attempts: rest.first_pass_attempts + 1, ..rest }
            } else {
                RouteOutcome { second_pass_attempts: rest.second_pass_attempts + 1, ..rest }
            }
        }
    }
}

/// One attempt to make: the endpoint to send the call to and the time to wait for it.
#[derive(Debug)]
pub struct RouteAttempt {
    pub rpc: String,
    pub timeout_ms: u64,
}

/// One inbound call on its way through the ranked endpoints of its chain.
pub struct RouteCall {
    chain_id: String,
    rpcs: Vec<String>,
    base_timeout_ms: u32,
    pass: u8,
    index: usize,
}

impl View for RouteCall {
    type V = RouteModel;

    closed spec fn view(&self) -> RouteModel {
        RouteModel {
            rpcs: urls_view(self.rpcs@),
            base_timeout_ms: self.base_timeout_ms as int,
            pass: self.pass as int,
            index: self.index as int,
        }
    }
}

impl RouteCall {
    #[verifier::type_invariant]
    spec fn well_formed(self) -> bool {
        self@.inv()
    }

    /// The chain the call is for.
    pub closed spec fn chain(&self) -> Seq<char> {
        self.chain_id@
    }

    /// Starts a call for `chain_id` on the endpoints that the ranking store gave
    /// for it. With no entry in the store there is nothing to route to.
    pub fn new(chain_id: &str, rpcs: Option<Vec<String>>, base_timeout_ms: u32) -> (call: Result<
        RouteCall,
        ResponseError,
    >)
        ensures
            match call {
                Ok(call) => rpcs is Some && call.chain() == chain_id@ && call@
                    == RouteModel::initial(urls_view(rpcs->0@), base_timeout_ms as int),
                Err(error) => rpcs is None && error.status == STATUS_INTERNAL_SERVER_ERROR
                    && error.error@ == no_rpc_message(chain_id@),
            },
    {
        match rpcs {
            Some(rpcs) => {
                let pass: u8 = if rpcs.len() == 0 {
                    ROUTE_PASSES + 1
                } else {
                    1
                };
                Ok(
                    RouteCall {
                        chain_id: String::from_str(chain_id),
                        rpcs,
                        base_timeout_ms,
                        pass,
                        index: 0,
                    },
                )
            },
            None => Err(
                ResponseError {
                    error: concat3("No rpc provided for chainId ", chain_id, ""),
                    status: STATUS_INTERNAL_SERVER_ERROR,
                },
            ),
        }
    }

    /// The attempt to make next, or `None` once both passes are through.
    pub fn next_attempt(&self) -> (attempt: Option<RouteAttempt>)
        ensures
            self@.inv(),
            attempt is None <==> self@.exhausted(),
            attempt is Some ==> attempt->0.rpc@ == self@.rpcs[self@.index]
                && attempt->0.timeout_ms == self@.timeout_ms(),
    {
        proof {
            use_type_invariant(self);
            assert(self@.rpcs.len() == self.rpcs.len());
            assert(self@.base_timeout_ms * 1 == self@.base_timeout_ms);
        }
        if self.pass > ROUTE_PASSES {
            None
        } else {
            let timeout_ms: u64 = if self.pass == 1 {
                self.base_timeout_ms as u64
            } else {
                self.base_timeout_ms as u64 * 2
            };
            Some(RouteAttempt { rpc: self.rpcs[self.index].clone(), timeout_ms })
        }
    }

    /// Takes note that the attempt last handed out failed.
    pub fn record_failure(&mut self)
        ensures
            final(self)@ == old(self)@.after_failure(),
            final(self).chain() == old(self).chain(),
    {
        proof {
            use_type_invariant(&*self);
            assert(self@.rpcs.len() == self.rpcs.len());
        }
        if self.pass > ROUTE_PASSES {
        } else if self.index + 1 < self.rpcs.len() {
            self.index = self.index + 1;
        } else {
            self.index = 0;
            self.pass = self.pass + 1;
        }
    }

    /// The answer to a call that no endpoint served.
    pub fn failure(&self) -> (error: ResponseError)
        ensures
            error.status == STATUS_INTERNAL_SERVER_ERROR,
            error.error@ == exhausted_message(self.chain()),
    {
        ResponseError {
            error: concat3("failed to request all RPCs for chainId: ", self.chain_id.as_str(), ""),
            status: STATUS_INTERNAL_SERVER_ERROR,
        }
    }
}

/// Turns away a chain the gateway does not serve.
pub fn check_supported(chain_id: &str, supported_chain_ids: &Vec<String>) -> (checked: Result<
    (),
    ResponseError,
>)
    ensures
        checked is Ok <==> is_supported(supported_chain_ids@, chain_id@),
        checked is Err ==> checked->Err_0.status == STATUS_BAD_REQUEST && checked->Err_0.error@
            == unsupported_chain_message(chain_id@),
{
    if contains_string(supported_chain_ids, chain_id) {
        Ok(())
    } else {
        Err(
            ResponseError {
                error: concat3("chainId ", chain_id, " is not supported yet"),
                status: STATUS_BAD_REQUEST,
            },
        )
    }
}

/// The endpoints of a ranking, best first, without their metrics.
pub fn ranking_urls(ranking: &Vec<(String, RpcMetrics)>) -> (urls: Vec<String>)
    ensures
        urls_view(urls@) == urls_of(ranking_view(ranking@)),
{
    let mut urls: Vec<String> = Vec::new();
    let mut i: usize = 0;
    while i < ranking.len()
        invariant
            i <= ranking.len(),
            urls.len() == i,
            forall|k: int| 0 <= k < i ==> (#[trigger] urls[k])@ == ranking[k].0@,
        decreases ranking.len() - i,
    {
        urls.push(ranking[i].0.clone());
        i = i + 1;
    }
    assert(urls_view(urls@) =~= urls_of(ranking_view(ranking@)));
    urls
}

/// Starts a call for `chain_id` once the ranking store has been asked for its
/// ranking: `ranking` is what the store gave.
pub fn route_ranking(
    chain_id: &str,
    supported_chain_ids: &Vec<String>,
    ranking: Option<Vec<(String, RpcMetrics)>>,
    base_timeout_ms: u32,
) -> (call: Result<RouteCall, ResponseError>)
    ensures
        match call {
            Ok(call) => is_supported(supported_chain_ids@, chain_id@) && ranking is Some
                && call.chain() == chain_id@ && call@ == RouteModel::initial(
                urls_of(ranking_view(ranking->0@)),
                base_timeout_ms as int,
            ),
            Err(error) => if !is_supported(supported_chain_ids@, chain_id@) {
                error.status == STATUS_BAD_REQUEST && error.error@ == unsupported_chain_message(
                    chain_id@,
                )
            } else {
                ranking is None && error.status == STATUS_INTERNAL_SERVER_ERROR && error.error@
                    == no_rpc_message(chain_id@)
            },
        },
{
    match check_supported(chain_id, supported_chain_ids) {
        Err(error) => Err(error),
        Ok(()) => {
            let rpcs = match ranking {
                Some(ranking) => Some(ranking_urls(&ranking)),
                None => None,
            };
            RouteCall::new(chain_id, rpcs, base_timeout_ms)
        },
    }
}

/// Starts routing a call for `chain_id`: the chain has to be supported, and the
/// ranking store has to hold a ranking for it. The call then walks that ranking.
pub fn post_chain<C: EvmRpcCache>(
    chain_id: &str,
    evm_rpc_service: &EvmRpcService<C>,
    supported_chain_ids: &Vec<String>,
    base_timeout_ms: u32,
) -> (call: Result<RouteCall, ResponseError>)
    ensures
        match call {
            Ok(call) => is_supported(supported_chain_ids@, chain_id@)
                && evm_rpc_service.evm_cache.rankings().contains_key(chain_id@) && call.chain()
                == chain_id@ && call@ == RouteModel::initial(
                urls_of(evm_rpc_service.evm_cache.rankings()[chain_id@]),
                base_timeout_ms as int,
            ),
            Err(error) => if !is_supported(supported_chain_ids@, chain_id@) {
                error.status == STATUS_BAD_REQUEST && error.error@ == unsupported_chain_message(
                    chain_id@,
                )
            } else {
                error.status == STATUS_INTERNAL_SERVER_ERROR && error.error@ == no_rpc_message(
                    chain_id@,
                )
            },
        },
{
    match check_supported(chain_id, supported_chain_ids) {
        Err(error) => Err(error),
        Ok(()) => {
            let ranking = evm_rpc_service.get_rpcs_for_chain_id_cache(chain_id);
            route_ranking(chain_id, supported_chain_ids, ranking, base_timeout_ms)
        },
    }
}

proof fn lemma_run_to_winner(call: RouteModel, succeeds: spec_fn(int, int) -> bool, winner: int)
    requires
        call.inv(),
        !call.exhausted(),
        call.index <= winner < call.rpcs.len(),
        succeeds(call.pass, winner),
        forall|i: int| call.index <= i < winner ==> !#[trigger] succeeds(call.pass, i),
    ensures
        call.run(succeeds).served_by == Some((call.pass, winner)),
        call.pass == 1 ==> call.run(succeeds).first_pass_attempts == winner - call.index + 1
            && call.run(succeeds).second_pass_attempts == 0,
        call.pass == 2 ==> call.run(succeeds).second_pass_attempts == winner - call.index + 1
            && call.run(succeeds).first_pass_attempts == 0,
    decreases winner - call.index,
{
    if call.index < winner {
        lemma_run_to_winner(call.after_failure(), succeeds, winner);
    }
}

proof fn lemma_run_second_pass_in_vain(call: RouteModel, succeeds: spec_fn(int, int) -> bool)
    requires
        call.inv(),
        call.pass == 2,
        forall|i: int| call.index <= i < call.rpcs.len() ==> !#[trigger] succeeds(2, i),
    ensures
        call.run(succeeds) == (RouteOutcome {
            first_pass_attempts: 0,
            second_pass_attempts: call.rpcs.len() - call.index,
            served_by: None,
        }),
    decreases call.rpcs.len() - call.index,
{
    if call.index + 1 < call.rpcs.len() {
        lemma_run_second_pass_in_vain(call.after_failure(), succeeds);
    } else {
        assert(call.after_failure().exhausted());
        assert(call.after_failure().run(succeeds).served_by is None);
    }
}

proof fn lemma_run_first_pass_in_vain(call: RouteModel, succeeds: spec_fn(int, int) -> bool)
    requires
        call.inv(),
        call.pass == 1,
        forall|i: int| call.index <= i < call.rpcs.len() ==> !#[trigger] succeeds(1, i),
    ensures
        call.run(succeeds) == ({
            let second = (RouteModel { pass: 2, index: 0, ..call }).run(succeeds);
            RouteOutcome { first_pass_attempts: call.rpcs.len() - call.index, ..second }
        }),
    decreases call.rpcs.len() - call.index,
{
    if call.index + 1 < call.rpcs.len() {
        lemma_run_first_pass_in_vain(call.after_failure(), succeeds);
    } else {
        let second = RouteModel { pass: 2, index: 0, ..call };
        assert(call.after_failure() == second);
        lemma_attempts_bounded(second, succeeds);
    }
}

/// Of `rpcs`, only the `k`-th endpoint (counted from 1) answers in the first pass,
/// or it is the first to: then the call takes exactly `k` attempts in the first
/// pass and none in the second, and that endpoint serves it.
pub proof fn lemma_served_in_first_pass(
    rpcs: Seq<Seq<char>>,
    base_timeout_ms: int,
    succeeds: spec_fn(int, int) -> bool,
    k: int,
)
    requires
        1 <= k <= rpcs.len(),
        succeeds(1, k - 1),
        forall|i: int| 0 <= i < k - 1 ==> !#[trigger] succeeds(1, i),
    ensures
        RouteModel::initial(rpcs, base_timeout_ms).run(succeeds) == (RouteOutcome {
            first_pass_attempts: k,
            second_pass_attempts: 0,
            served_by: Some((1, k - 1)),
        }),
{
    lemma_run_to_winner(RouteModel::initial(rpcs, base_timeout_ms), succeeds, k - 1);
}

/// No endpoint of `rpcs` answers in the first pass, and in the second the `k`-th
/// (counted from 1) is the first to answer: then the call takes one attempt per
/// endpoint in the first pass and exactly `k` more in the second, each of these
/// with twice the base timeout.
pub proof fn lemma_served_in_second_pass(
    rpcs: Seq<Seq<char>>,
    base_timeout_ms: int,
    succeeds: spec_fn(int, int) -> bool,
    k: int,
)
    requires
        1 <= k <= rpcs.len(),
        forall|i: int| 0 <= i < rpcs.len() ==> !#[trigger] succeeds(1, i),
        succeeds(2, k - 1),
        forall|i: int| 0 <= i < k - 1 ==> !#[trigger] succeeds(2, i),
    ensures
        RouteModel::initial(rpcs, base_timeout_ms).run(succeeds) == (RouteOutcome {
            first_pass_attempts: rpcs.len() as int,
            second_pass_attempts: k,
            served_by: Some((2, k - 1)),
        }),
        (RouteModel { rpcs, base_timeout_ms, pass: 2, index: k - 1 }).timeout_ms() == 2
            * base_timeout_ms,
{
    let call = RouteModel::initial(rpcs, base_timeout_ms);
    lemma_run_first_pass_in_vain(call, succeeds);
    lemma_run_to_winner(RouteModel { pass: 2, index: 0, ..call }, succeeds, k - 1);
}

/// No endpoint of `rpcs` answers in either pass: then the call takes one attempt
/// per endpoint in each pass and is served by none.
pub proof fn lemma_served_by_none(
    rpcs: Seq<Seq<char>>,
    base_timeout_ms: int,
    succeeds: spec_fn(int, int) -> bool,
)
    requires
        forall|i: int| 0 <= i < rpcs.len() ==> !#[trigger] succeeds(1, i),
        forall|i: int| 0 <= i < rpcs.len() ==> !#[trigger] succeeds(2, i),
    ensures
        RouteModel::initial(rpcs, base_timeout_ms).run(succeeds) == (RouteOutcome {
            first_pass_attempts: rpcs.len() as int,
            second_pass_attempts: rpcs.len() as int,
            served_by: None,
        }),
{
    let call = RouteModel::initial(rpcs, base_timeout_ms);
    if rpcs.len() > 0 {
        lemma_run_first_pass_in_vain(call, succeeds);
        lemma_run_second_pass_in_vain(RouteModel { pass: 2, index: 0, ..call }, succeeds);
    }
}

/// However the endpoints behave, a call takes at most one attempt per endpoint in
/// each pass, and none in the second pass unless the first pass went by in vain.
pub proof fn lemma_attempts_bounded(call: RouteModel, succeeds: spec_fn(int, int) -> bool)
    requires
        call.inv(),
    ensures
        0 <= call.run(succeeds).first_pass_attempts <= call.rpcs.len(),
        0 <= call.run(succeeds).second_pass_attempts <= call.rpcs.len(),
        call.pass == 1 ==> call.run(succeeds).first_pass_attempts <= call.rpcs.len() - call.index,
        call.pass == 2 ==> call.run(succeeds).first_pass_attempts == 0
            && call.run(succeeds).second_pass_attempts <= call.rpcs.len() - call.index,
        call.run(succeeds).second_pass_attempts > 0 && call.pass == 1 ==> forall|i: int|
            call.index <= i < call.rpcs.len() ==> !#[trigger] succeeds(1, i),
    decreases ROUTE_PASSES + 1 - call.pass, call.rpcs.len() - call.index,
{
    if !call.exhausted() && !succeeds(call.pass, call.index) {
        lemma_attempts_bounded(call.after_failure(), succeeds);
    }
}

/// One endpoint of a ranking as the metrics view shows it.
#[derive(Debug)]
pub struct InnerMetricResponse {
    pub rpc: String,
    pub metrics: RpcMetrics,
}

/// The ranking of a chain as the metrics view shows it.
#[derive(Debug)]
pub struct MetricsResponse {
    pub rpcs: Vec<InnerMetricResponse>,
}

/// A metrics view as pairs of endpoint URL and latency.
pub open spec fn metrics_view(response: MetricsResponse) -> Seq<(Seq<char>, u128)> {
    Seq::new(
        response.rpcs.len() as nat,
        |i: int| (response.rpcs[i].rpc@, response.rpcs[i].metrics.response_time_ms),
    )
}

/// Shows the ranking of `chain_id` once the ranking store has been asked for it:
/// `ranking` is what the store gave. The view lists the ranking as it is.
pub fn show_ranking(
    chain_id: &str,
    supported_chain_ids: &Vec<String>,
    ranking: Option<Vec<(String, RpcMetrics)>>,
) -> (response: Result<MetricsResponse, ResponseError>)
    ensures
        match response {
            Ok(response) => is_supported(supported_chain_ids@, chain_id@) && ranking is Some
                && metrics_view(response) == ranking_view(ranking->0@),
            Err(error) => if !is_supported(supported_chain_ids@, chain_id@) {
                error.status == STATUS_BAD_REQUEST && error.error@ == unsupported_chain_message(
                    chain_id@,
                )
            } else {
                ranking is None && error.status == STATUS_INTERNAL_SERVER_ERROR && error.error@
                    == no_rpc_message(chain_id@)
            },
        },
{
    match check_supported(chain_id, supported_chain_ids) {
        Err(error) => Err(error),
        Ok(()) => match ranking {
            None => Err(
                ResponseError {
                    error: concat3("No rpc provided for chainId ", chain_id, ""),
                    status: STATUS_INTERNAL_SERVER_ERROR,
                },
            ),
            Some(ranking) => {
                let mut rpcs: Vec<InnerMetricResponse> = Vec::new();
                let mut i: usize = 0;
                while i < ranking.len()
                    invariant
                        i <= ranking.len(),
                        rpcs.len() == i,
                        forall|k: int|
                            0 <= k < i ==> (#[trigger] rpcs[k]).rpc@ == ranking[k].0@
                                && rpcs[k].metrics == ranking[k].1,
                    decreases ranking.len() - i,
                {
                    rpcs.push(
                        InnerMetricResponse { rpc: ranking[i].0.clone(), metrics: ranking[i].1 },
                    );
                    i = i + 1;
                }
                let response = MetricsResponse { rpcs };
                assert(metrics_view(response) =~= ranking_view(ranking@));
                Ok(response)
            },
        },
    }
}

/// The current ranking of `chain_id` with its metrics. It only reads.
pub fn get_metrics<C: EvmRpcCache>(
    chain_id: &str,
    evm_rpc_service: &EvmRpcService<C>,
    supported_chain_ids: &Vec<String>,
) -> (response: Result<MetricsResponse, ResponseError>)
    ensures
        match response {
            Ok(response) => is_supported(supported_chain_ids@, chain_id@)
                && evm_rpc_service.evm_cache.rankings().contains_key(chain_id@) && metrics_view(
                response,
            ) == evm_rpc_service.evm_cache.rankings()[chain_id@],
            Err(error) => if !is_supported(supported_chain_ids@, chain_id@) {
                error.status == STATUS_BAD_REQUEST && error.error@ == unsupported_chain_message(
                    chain_id@,
                )
            } else {
                error.status == STATUS_INTERNAL_SERVER_ERROR && error.error@ == no_rpc_message(
                    chain_id@,
                )
            },
        },
{
    match check_supported(chain_id, supported_chain_ids) {
        Err(error) => Err(error),
        Ok(()) => {
            let ranking = evm_rpc_service.get_rpcs_for_chain_id_cache(chain_id);
            show_ranking(chain_id, supported_chain_ids, ranking)
        },
    }
}

/// The chains the gateway serves.
pub fn get_chains(supported_chain_ids: &Vec<String>) -> (response: ResponseData<Vec<String>>)
    ensures
        urls_view(response.data@) == urls_view(supported_chain_ids@),
{
    let data = clone_strings(supported_chain_ids);
    assert(urls_view(data@) =~= urls_view(supported_chain_ids@));
    ResponseData::build(data)
}

} // verus!
