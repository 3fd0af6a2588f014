//! Endpoint health checks and the ranking store they feed.

use vstd::prelude::*;
use crate::client::chainlist::{ChainConfig, ChainlistClient};
use crate::models::{Chain, NewRpc, RpcVisibility};
use crate::models::proxy::{ProxyConfig, http_proxy_accepts, proxy_url_view, reqwest_error_text};
use crate::util::{concat3, contains_string, decimal, number_to_string, str_equal};
use crate::util::text::{chars_of, parse_integer, parse_number};

verus! {

/// What one successful probe measured. Lower is better.
#[derive(Debug, Clone, Copy, PartialEq, Eq, Structural)]
pub struct RpcMetrics {
    pub response_time_ms: u128,
}

/// Why a probe produced no metric.
#[derive(Debug, Clone, Copy, PartialEq, Eq, Structural)]
pub enum HealthCheckError {
    /// At least one of the tries failed.
    TooManyFailedAttempts,
}

/// A ranking as a sequence of endpoint URL and latency, best first.
pub open spec fn ranking_view(ranking: Seq<(String, RpcMetrics)>) -> Seq<(Seq<char>, u128)> {
    Seq::new(ranking.len(), |i: int| (ranking[i].0@, ranking[i].1.response_time_ms))
}

/// A list of endpoint URLs as a sequence of character sequences.
pub open spec fn urls_view(urls: Seq<String>) -> Seq<Seq<char>> {
    Seq::new(urls.len(), |i: int| urls[i]@)
}

/// The ranking store: per chain the latest published ranking, and per API key and
/// chain the latest published list of endpoints. It is a cache, so a read may miss
/// what was written; what a read does return is what was written last.
pub trait EvmRpcCache {
    /// The ranking last published for each chain id.
    spec fn rankings(&self) -> Map<Seq<char>, Seq<(Seq<char>, u128)>>;

    /// The endpoints last published for each pair of API key and chain id.
    spec fn api_key_rpcs(&self) -> Map<(Seq<char>, Seq<char>), Seq<Seq<char>>>;

    fn get_rpcs_for_api_key(&self, api_key: &str, chain_id: &str) -> (rpcs: Option<Vec<String>>)
        ensures
            rpcs is Some ==> self.api_key_rpcs().contains_key((api_key@, chain_id@)) && urls_view(
                rpcs->0@,
            ) == self.api_key_rpcs()[(api_key@, chain_id@)],
    ;

    fn set_rpcs_for_api_key(&mut self, api_key: &str, chain_id: &str, rpcs: Vec<String>)
        ensures
            final(self).api_key_rpcs() == old(self).api_key_rpcs().insert(
                (api_key@, chain_id@),
                urls_view(rpcs@),
            ),
            final(self).rankings() == old(self).rankings(),
    ;

    fn get_rpcs_for_chain_id(&self, chain_id: &str) -> (rpcs: Option<Vec<(String, RpcMetrics)>>)
        ensures
            rpcs is Some ==> self.rankings().contains_key(chain_id@) && ranking_view(rpcs->0@)
                == self.rankings()[chain_id@],
    ;

    fn set_rpcs_for_chain_id(&mut self, chain_id: &str, rpcs: Vec<(String, RpcMetrics)>)
        ensures
            final(self).rankings() == old(self).rankings().insert(chain_id@, ranking_view(rpcs@)),
            final(self).api_key_rpcs() == old(self).api_key_rpcs(),
    ;
}

/// Probes endpoints and keeps what the probes found in the ranking store.
pub struct EvmRpcService<C: EvmRpcCache> {
    pub chainlist_client: Box<ChainlistClient>,
    pub evm_cache: C,
}

impl<C: EvmRpcCache> EvmRpcService<C> {
    pub fn new(chainlist_client: Box<ChainlistClient>, evm_cache: C) -> (service: Self)
        ensures
            service.evm_cache == evm_cache,
            service.chainlist_client == chainlist_client,
    {
        Self { chainlist_client, evm_cache }
    }

    /// Publishes `rpcs` as the ranking of `chain_id`, in place of the one before.
    /// The feed hands over what it has ranked; nothing else is published.
    pub fn set_rpcs_for_chain_id_cache(&mut self, chain_id: &str, rpcs: Vec<(String, RpcMetrics)>)
        ensures
            final(self).evm_cache.rankings() == old(self).evm_cache.rankings().insert(
                chain_id@,
                ranking_view(rpcs@),
            ),
            final(self).evm_cache.api_key_rpcs() == old(self).evm_cache.api_key_rpcs(),
            final(self).chainlist_client == old(self).chainlist_client,
    {
        self.evm_cache.set_rpcs_for_chain_id(chain_id, rpcs);
    }

    /// The ranking of `chain_id`, where the store still holds it: then it is the
    /// one published last.
    pub fn get_rpcs_for_chain_id_cache(&self, chain_id: &str) -> (rpcs: Option<
        Vec<(String, RpcMetrics)>,
    >)
        ensures
            rpcs is Some ==> self.evm_cache.rankings().contains_key(chain_id@) && ranking_view(
                rpcs->0@,
            ) == self.evm_cache.rankings()[chain_id@],
    {
        self.evm_cache.get_rpcs_for_chain_id(chain_id)
    }

    /// The endpoints of `api_key` on `chain_id`, where the store still holds them:
    /// then they are the ones published last.
    pub fn get_rpcs_for_api_key_cache(&self, api_key: &str, chain_id: &str) -> (rpcs: Option<
        Vec<String>,
    >)
        ensures
            rpcs is Some ==> self.evm_cache.api_key_rpcs().contains_key((api_key@, chain_id@))
                && urls_view(rpcs->0@) == self.evm_cache.api_key_rpcs()[(api_key@, chain_id@)],
    {
        self.evm_cache.get_rpcs_for_api_key(api_key, chain_id)
    }

    /// Publishes `rpcs` as the endpoints of `api_key` on `chain_id`. An empty key
    /// names nobody: nothing is published for it.
    pub fn set_rpcs_for_api_key_cache(&mut self, api_key: &str, chain_id: &str, rpcs: Vec<String>)
        ensures
            final(self).evm_cache.rankings() == old(self).evm_cache.rankings(),
            final(self).chainlist_client == old(self).chainlist_client,
            final(self).evm_cache.api_key_rpcs() == (if api_key@.len() == 0 {
                old(self).evm_cache.api_key_rpcs()
            } else {
                old(self).evm_cache.api_key_rpcs().insert((api_key@, chain_id@), urls_view(rpcs@))
            }),
    {
        if api_key.unicode_len() == 0 {
            return ;
        }
        self.evm_cache.set_rpcs_for_api_key(api_key, chain_id, rpcs);
    }
}

/// How a call to an endpoint failed.
#[derive(Debug)]
pub enum EvmRpcError {
    /// The endpoint answered with a 5xx status.
    Server,
    /// The endpoint answered with a 4xx status.
    Client,
    /// Anything else: the client could not be built, the body was malformed, the
    /// status was unexpected.
    Internal(String),
    /// The outbound proxy could not be set up.
    Proxy(String),
    /// The deadline passed.
    Timeout,
}

impl EvmRpcError {
    /// The error as it is printed.
    pub open spec fn message_view(self) -> Seq<char> {
        match self {
            EvmRpcError::Server => "server error"@,
            EvmRpcError::Client => "client error"@,
            EvmRpcError::Internal(cause) => "internal error: "@ + cause@ + ""@,
            EvmRpcError::Proxy(cause) => "proxy error: "@ + cause@ + ""@,
            EvmRpcError::Timeout => "rpc timeout"@,
        }
    }

    /// The error as it is printed.
    pub fn message(&self) -> (text: String)
        ensures
            text@ == self.message_view(),
    {
        match self {
            EvmRpcError::Server => String::from_str("server error"),
            EvmRpcError::Client => String::from_str("client error"),
            EvmRpcError::Internal(cause) => concat3("internal error: ", cause.as_str(), ""),
            EvmRpcError::Proxy(cause) => concat3("proxy error: ", cause.as_str(), ""),
            EvmRpcError::Timeout => String::from_str("rpc timeout"),
        }
    }
}

/// The message of a status that is neither success nor a client or server error,
/// and of a request that failed before any status came.
pub open spec fn unknown_error_message(cause: Seq<char>) -> Seq<char> {
    "unknown error: "@ + cause + ""@
}

/// What the status of an answer means for the call. `status_text` is the status as
/// it is printed.
pub open spec fn status_verdict(status: u16, status_text: Seq<char>) -> Option<EvmRpcErrorView> {
    if 200 <= status < 300 {
        None
    } else if 400 <= status < 500 {
        Some(EvmRpcErrorView::Client)
    } else if 500 <= status < 600 {
        Some(EvmRpcErrorView::Server)
    } else {
        Some(EvmRpcErrorView::Internal(unknown_error_message(status_text)))
    }
}

/// The message of an answer whose body is no JSON.
pub open spec fn malformed_body_message(cause: Seq<char>) -> Seq<char> {
    "failed to parse response: "@ + cause + ""@
}

/// An `EvmRpcError` with its texts as character sequences.
pub enum EvmRpcErrorView {
    Server,
    Client,
    Internal(Seq<char>),
    Proxy(Seq<char>),
    Timeout,
}

impl View for EvmRpcError {
    type V = EvmRpcErrorView;

    open spec fn view(&self) -> EvmRpcErrorView {
        match self {
            EvmRpcError::Server => EvmRpcErrorView::Server,
            EvmRpcError::Client => EvmRpcErrorView::Client,
            EvmRpcError::Internal(cause) => EvmRpcErrorView::Internal(cause@),
            EvmRpcError::Proxy(cause) => EvmRpcErrorView::Proxy(cause@),
            EvmRpcError::Timeout => EvmRpcErrorView::Timeout,
        }
    }
}

/// Judges an answer by its status: a 2xx status lets the call go on to the body,
/// 4xx is the caller's fault, 5xx the endpoint's, anything else is unexpected.
pub fn check_status(status: u16, status_text: &str) -> (checked: Result<(), EvmRpcError>)
    ensures
        match checked {
            Ok(()) => status_verdict(status, status_text@) is None,
            Err(error) => status_verdict(status, status_text@) == Some(error@),
        },
{
    if 200 <= status && status < 300 {
        Ok(())
    } else if 400 <= status && status < 500 {
        Err(EvmRpcError::Client)
    } else if 500 <= status && status < 600 {
        Err(EvmRpcError::Server)
    } else {
        Err(EvmRpcError::Internal(concat3("unknown error: ", status_text, "")))
    }
}

/// The error of a request that got no answer: a timeout where the deadline
/// passed, an internal error with the `cause` otherwise.
pub fn transport_error(timed_out: bool, cause: &str) -> (error: EvmRpcError)
    ensures
        error@ == (if timed_out {
            EvmRpcErrorView::Timeout
        } else {
            EvmRpcErrorView::Internal(unknown_error_message(cause@))
        }),
{
    if timed_out {
        EvmRpcError::Timeout
    } else {
        EvmRpcError::Internal(concat3("unknown error: ", cause, ""))
    }
}

/// The error of an answer whose body is no JSON.
pub fn malformed_body(cause: &str) -> (error: EvmRpcError)
    ensures
        error@ == EvmRpcErrorView::Internal(malformed_body_message(cause@)),
{
    EvmRpcError::Internal(concat3("failed to parse response: ", cause, ""))
}

/// The probe call: it asks an endpoint for the id of the chain it serves.
pub const CHAIN_ID_REQUEST: &'static str =
    r#"{"method":"eth_chainId","params":[],"id":1,"jsonrpc":"2.0"}"#;

/// The answer to the probe call.
#[derive(Debug, Clone)]
pub struct EvmRpcTestResponse {
    pub jsonrpc: String,
    pub id: u32,
    pub result: String,
}

/// A signed 64-bit number read from hexadecimal text: an optional sign, then at
/// least one digit, and a value in range. Anything else is no number.
pub open spec fn parse_hex_i64(text: Seq<char>) -> Option<int> {
    parse_integer(text, 16, i64::MIN as int, i64::MAX as int)
}

/// The chain id that the result of a probe call reports, in decimal: the result
/// has to be `0x` followed by a hexadecimal number.
pub open spec fn reported_chain_id(result: Seq<char>) -> Option<Seq<char>> {
    if result.len() >= 2 && result[0] == '0' && result[1] == 'x' {
        match parse_hex_i64(result.skip(2)) {
            Some(value) => Some(decimal(value)),
            None => None,
        }
    } else {
        None
    }
}

/// Whether the result of a probe call reports the chain `chain_id`.
pub fn reports_chain_id(result: &str, chain_id: &str) -> (matches: bool)
    ensures
        matches == (reported_chain_id(result@) == Some(chain_id@)),
{
    let chars = chars_of(result);
    if chars.len() < 2 || chars[0] != '0' || chars[1] != 'x' {
        return false;
    }
    match parse_number(&chars, 2, 16, i64::MIN, i64::MAX) {
        Some(value) => {
            let reported = number_to_string(value);
            str_equal(reported.as_str(), chain_id)
        },
        None => false,
    }
}

/// One try of a probe: how long the call took and what came of it. `Ok(None)` is
/// an answer that is no answer to the probe call.
#[derive(Debug)]
pub struct HealthCheckTry {
    pub elapsed_ms: u128,
    pub response: Result<Option<EvmRpcTestResponse>, EvmRpcError>,
}

/// A try counts where the endpoint answered the probe call and reported the chain
/// it was asked for.
pub open spec fn try_succeeded(chain_id: Seq<char>, probe_try: HealthCheckTry) -> bool {
    match probe_try.response {
        Ok(Some(response)) => reported_chain_id(response.result@) == Some(chain_id),
        _ => false,
    }
}

/// The time that all tries took together.
pub open spec fn total_elapsed_ms(tries: Seq<HealthCheckTry>) -> int
    decreases tries.len(),
{
    if tries.len() == 0 {
        0
    } else {
        total_elapsed_ms(tries.drop_last()) + tries.last().elapsed_ms
    }
}

proof fn lemma_total_elapsed_bounded(tries: Seq<HealthCheckTry>)
    ensures
        0 <= total_elapsed_ms(tries) <= tries.len() * u128::MAX,
    decreases tries.len(),
{
    if tries.len() > 0 {
        let rest = tries.drop_last();
        lemma_total_elapsed_bounded(rest);
        assert(tries.len() * u128::MAX == rest.len() * u128::MAX + u128::MAX) by (nonlinear_arith)
            requires
                tries.len() == rest.len() + 1,
        ;
    }
}

proof fn lemma_mean(total: int, count: int, whole: int, rest: int)
    requires
        count > 0,
        rest >= 0,
        total == whole * count + rest,
    ensures
        total / count == whole + rest / count,
{
    vstd::arithmetic::div_mod::lemma_fundamental_div_mod(rest, count);
    assert(total == (whole + rest / count) * count + rest % count) by (nonlinear_arith)
        requires
            total == whole * count + rest,
            rest == count * (rest / count) + (rest % count),
    ;
    vstd::arithmetic::div_mod::lemma_fundamental_div_mod_converse(
        total,
        count,
        whole + rest / count,
        rest % count,
    );
}

impl<C: EvmRpcCache> EvmRpcService<C> {
    /// Judges a probe by its tries, taken one after the other. Every try has to
    /// succeed; the metric is then the mean time of the tries.
    pub fn rpc_health_check(&self, chain_id: &str, tries: &Vec<HealthCheckTry>) -> (verdict: Result<
        RpcMetrics,
        HealthCheckError,
    >)
        requires
            tries.len() > 0,
        ensures
            verdict is Ok <==> forall|i: int|
                0 <= i < tries.len() ==> try_succeeded(chain_id@, #[trigger] tries[i]),
            verdict is Ok ==> verdict->Ok_0.response_time_ms == total_elapsed_ms(tries@) / (
            tries.len() as int),
            verdict is Err ==> verdict->Err_0 == HealthCheckError::TooManyFailedAttempts,
    {
        let count: u128 = tries.len() as u128;
        let mut whole: u128 = 0;
        let mut rest: u128 = 0;
        let mut i: usize = 0;
        assert(tries@.take(0) =~= Seq::empty());
        while i < tries.len()
            invariant
                i <= tries.len(),
                0 < count == tries.len(),
                forall|k: int| 0 <= k < i ==> try_succeeded(chain_id@, #[trigger] tries[k]),
                whole * count + rest == total_elapsed_ms(tries@.take(i as int)),
                whole <= i * (u128::MAX / count),
                rest <= i * (count - 1),
            decreases tries.len() - i,
        {
            let probe_try = &tries[i];
            let succeeded = match &probe_try.response {
                Ok(Some(response)) => reports_chain_id(response.result.as_str(), chain_id),
                _ => false,
            };
            if !succeeded {
                return Err(HealthCheckError::TooManyFailedAttempts);
            }
            let elapsed = probe_try.elapsed_ms;
            proof {
                let longer = tries@.take(i + 1);
                assert(longer.drop_last() =~= tries@.take(i as int));
                assert(longer.last() == tries[i as int]);
                vstd::arithmetic::div_mod::lemma_fundamental_div_mod(elapsed as int, count as int);
                assert((i + 1) * (u128::MAX / count) <= u128::MAX) by (nonlinear_arith)
                    requires
                        0 < count,
                        i + 1 <= count,
                ;
                assert((i + 1) * (u128::MAX / count) == i * (u128::MAX / count) + u128::MAX / count)
                    by (nonlinear_arith);
                assert(elapsed / count <= u128::MAX / count) by (nonlinear_arith)
                    requires
                        0 < count,
                        elapsed <= u128::MAX,
                ;
                assert((i + 1) * (count - 1) < 0x1_0000_0000_0000_0000_0000_0000_0000_0000)
                    by (nonlinear_arith)
                    requires
                        0 < count,
                        i + 1 <= count,
                        count <= 0xffff_ffff_ffff_ffff,
                ;
                assert((i + 1) * (count - 1) == i * (count - 1) + (count - 1)) by (nonlinear_arith);
                assert((whole + elapsed / count) * count + (rest + elapsed % count) == whole * count
                    + rest + elapsed) by (nonlinear_arith)
                    requires
                        elapsed == count * (elapsed / count) + (elapsed % count),
                ;
            }
            whole = whole + elapsed / count;
            rest = rest + elapsed % count;
            i = i + 1;
        }
        proof {
            assert(tries@.take(tries.len() as int) =~= tries@);
            lemma_mean(total_elapsed_ms(tries@), count as int, whole as int, rest as int);
            lemma_total_elapsed_bounded(tries@);
            assert(total_elapsed_ms(tries@) / (count as int) <= u128::MAX) by (nonlinear_arith)
                requires
                    0 < count,
                    total_elapsed_ms(tries@) <= count * u128::MAX,
            ;
        }
        Ok(RpcMetrics { response_time_ms: whole + rest / count })
    }
}

#[verifier::external_type_specification]
#[verifier::external_body]
pub struct ExClient(reqwest::Client);

#[verifier::external_type_specification]
#[verifier::external_body]
pub struct ExClientBuilder(reqwest::ClientBuilder);

/// `reqwest::Client::builder` and `reqwest::ClientBuilder::timeout`: the
/// settings of a client that gives every request `timeout` from its start to the
/// end of the answer.
#[verifier::external_body]
fn client_builder(timeout: core::time::Duration) -> reqwest::ClientBuilder {
    reqwest::Client::builder().timeout(timeout)
}

/// `reqwest::ClientBuilder::proxy`: the settings, with `proxy` added to the
/// proxies that the client uses.
#[verifier::external_body]
fn builder_with_proxy(builder: reqwest::ClientBuilder, proxy: reqwest::Proxy) -> reqwest::ClientBuilder {
    builder.proxy(proxy)
}

/// `reqwest::ClientBuilder::build`: the client with these settings, or an error
/// where it cannot be set up.
#[verifier::external_body]
fn build_client(builder: reqwest::ClientBuilder) -> Result<reqwest::Client, reqwest::Error> {
    builder.build()
}

/// The message of a client that could not be set up.
pub open spec fn client_failure_message(cause: Seq<char>) -> Seq<char> {
    "failed to build http client: "@ + cause + ""@
}

/// The message of a proxy that could not be set up.
pub open spec fn proxy_failure_message(cause: Seq<char>) -> Seq<char> {
    "failed to build proxy: "@ + cause + ""@
}

impl<C: EvmRpcCache> EvmRpcService<C> {
    /// Sets up the HTTP client for one call: bound to `timeout`, and routed through
    /// `proxy_config` where one is given. A credential that gives no proxy is a proxy
    /// error; whatever else goes wrong is an internal error.
    pub fn build_http_client(&self, proxy_config: Option<&ProxyConfig>, timeout: core::time::Duration) -> (client:
        Result<reqwest::Client, EvmRpcError>)
        ensures
            proxy_config is Some && !http_proxy_accepts(proxy_url_view(proxy_config->0@))
                ==> client is Err && client->Err_0 is Proxy,
            client is Err ==> client->Err_0 is Internal || (client->Err_0 is Proxy
                && proxy_config is Some && !http_proxy_accepts(proxy_url_view(proxy_config->0@))),
            client is Err && client->Err_0 is Internal ==> exists|cause: Seq<char>|
                client->Err_0@ == EvmRpcErrorView::Internal(client_failure_message(cause)),
            client is Err && client->Err_0 is Proxy ==> exists|cause: Seq<char>|
                client->Err_0@ == EvmRpcErrorView::Proxy(proxy_failure_message(cause)),
    {
        let builder = client_builder(timeout);
        let builder = match proxy_config {
            Some(proxy_config) => match proxy_config.to_proxy() {
                Ok(proxy) => builder_with_proxy(builder, proxy),
                Err(invalid) => {
                    let error = EvmRpcError::Proxy(
                        concat3("failed to build proxy: ", invalid.reason.as_str(), ""),
                    );
                    assert(error@ == EvmRpcErrorView::Proxy(proxy_failure_message(invalid.reason@)));
                    return Err(error);
                },
            },
            None => builder,
        };
        match build_client(builder) {
            Ok(client) => Ok(client),
            Err(failure) => {
                let cause = reqwest_error_text(&failure);
                let error = EvmRpcError::Internal(
                    concat3("failed to build http client: ", cause.as_str(), ""),
                );
                assert(error@ == EvmRpcErrorView::Internal(client_failure_message(cause@)));
                Err(error)
            },
        }
    }
}

/// Whether one of `chain_ids` is `chain_id` written in decimal.
pub open spec fn is_listed(chain_ids: Seq<String>, chain_id: int) -> bool {
    exists|i: int| 0 <= i < chain_ids.len() && (#[trigger] chain_ids[i])@ == decimal(chain_id)
}

/// The chains of the catalog that the gateway serves, as pairs of id and name, in
/// the catalog's order.
pub open spec fn served_chains(chains_configs: Seq<ChainConfig>, chain_ids: Seq<String>) -> Seq<
    (Seq<char>, Seq<char>),
>
    decreases chains_configs.len(),
{
    if chains_configs.len() == 0 {
        Seq::empty()
    } else {
        let before = served_chains(chains_configs.drop_last(), chain_ids);
        let chain = chains_configs.last();
        if is_listed(chain_ids, chain.chain_id as int) {
            before.push((decimal(chain.chain_id as int), chain.name@))
        } else {
            before
        }
    }
}

/// Chains as pairs of id and name.
pub open spec fn chains_view(chains: Seq<Chain>) -> Seq<(Seq<char>, Seq<char>)> {
    Seq::new(chains.len(), |i: int| (chains[i].id@, chains[i].name@))
}

impl<C: EvmRpcCache> EvmRpcService<C> {
    /// Picks from the catalog the chains that the gateway serves: those whose id is
    /// one of `chain_ids`.
    pub fn init_chains(&self, chains_configs: &Vec<ChainConfig>, chain_ids: &Vec<String>) -> (chains: Vec<Chain>)
        ensures
            chains_view(chains@) == served_chains(chains_configs@, chain_ids@),
    {
        let mut chains: Vec<Chain> = Vec::new();
        let mut i: usize = 0;
        assert(chains_configs@.take(0) =~= Seq::empty());
        assert(chains_view(chains@) =~= Seq::empty());
        while i < chains_configs.len()
            invariant
                i <= chains_configs.len(),
                chains_view(chains@) == served_chains(chains_configs@.take(i as int), chain_ids@),
            decreases chains_configs.len() - i,
        {
            let ghost before = chains_view(chains@);
            proof {
                assert(chains_configs@.take(i + 1).drop_last() =~= chains_configs@.take(i as int));
                assert(chains_configs@.take(i + 1).last() == chains_configs[i as int]);
            }
            let id = number_to_string(chains_configs[i].chain_id);
            if contains_string(chain_ids, id.as_str()) {
                chains.push(Chain { id, name: chains_configs[i].name.clone() });
                assert(chains_view(chains@) =~= before.push((id@, chains_configs[i as int].name@)));
            }
            i = i + 1;
        }
        assert(chains_configs@.take(chains_configs.len() as int) =~= chains_configs@);
        chains
    }
}

impl<C: EvmRpcCache> EvmRpcService<C> {
    /// The endpoints that the catalog lists for `chain_id`, as they are registered:
    /// open to everybody.
    pub fn update_public_rpcs(&self, chain_id: &str, rpcs: &Vec<String>) -> (new_rpcs: Vec<NewRpc>)
        ensures
            new_rpcs.len() == rpcs.len(),
            forall|i: int|
                0 <= i < rpcs.len() ==> (#[trigger] new_rpcs[i]).chain_id@ == chain_id@
                    && new_rpcs[i].url@ == rpcs[i]@ && new_rpcs[i].visibility
                    == RpcVisibility::Public,
    {
        let mut new_rpcs: Vec<NewRpc> = Vec::new();
        let mut i: usize = 0;
        while i < rpcs.len()
            invariant
                i <= rpcs.len(),
                new_rpcs.len() == i,
                forall|k: int|
                    0 <= k < i ==> (#[trigger] new_rpcs[k]).chain_id@ == chain_id@
                        && new_rpcs[k].url@ == rpcs[k]@ && new_rpcs[k].visibility
                        == RpcVisibility::Public,
            decreases rpcs.len() - i,
        {
            new_rpcs.push(
                NewRpc {
                    visibility: RpcVisibility::Public,
                    chain_id: String::from_str(chain_id),
                    url: rpcs[i].clone(),
                },
            );
            i = i + 1;
        }
        new_rpcs
    }
}

} // verus!
