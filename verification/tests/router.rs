use rpc_gateway::client::chainlist::ChainlistClient;
use rpc_gateway::controllers::v1::chain::{
    check_supported, get_chains, get_metrics, post_chain, ranking_urls, route_ranking, RouteCall,
};
use rpc_gateway::controllers::v2;
use rpc_gateway::crons::publish_ranking;
use rpc_gateway::repo::cache::CacheRepo;
use rpc_gateway::services::evm_rpc::{EvmRpcService, HealthCheckError, RpcMetrics};
use rpc_gateway::util::controllers::{ResponseData, ResponseError};

fn entry(url: &str, ms: u128) -> (String, RpcMetrics) {
    (url.to_string(), RpcMetrics { response_time_ms: ms })
}

fn supported() -> Vec<String> {
    vec!["1".to_string(), "137".to_string()]
}

fn service() -> EvmRpcService<CacheRepo> {
    EvmRpcService::new(Box::new(ChainlistClient::new()), CacheRepo::new())
}

/// Publishes the ranking of a tick in which every candidate was probed with
/// success.
fn publish(service: &mut EvmRpcService<CacheRepo>, chain_id: &str, probed: &[(&str, u128)]) {
    let candidates: Vec<String> = probed.iter().map(|(url, _)| url.to_string()).collect();
    let arrived: Vec<(String, Result<RpcMetrics, HealthCheckError>)> = probed
        .iter()
        .map(|(url, ms)| (url.to_string(), Ok(RpcMetrics { response_time_ms: *ms })))
        .collect();
    publish_ranking(service, chain_id, &candidates, &arrived);
}

fn started(call: Result<RouteCall, ResponseError>) -> RouteCall {
    match call {
        Ok(call) => call,
        Err(error) => panic!("the call was turned away: {:?}", error),
    }
}

fn refused(call: Result<RouteCall, ResponseError>) -> ResponseError {
    match call {
        Ok(_) => panic!("the call was not turned away"),
        Err(error) => error,
    }
}

/// Runs a call against endpoints that answer as `succeeds` says, by pass and by
/// place in the ranking. Gives the attempts as (pass, endpoint, timeout) and the
/// endpoint that served the call.
fn run(mut call: RouteCall, endpoints: usize, succeeds: &dyn Fn(usize, usize) -> bool) -> (Vec<(usize, String, u64)>, Option<String>) {
    let mut attempts = Vec::new();
    loop {
        match call.next_attempt() {
            None => return (attempts, None),
            Some(attempt) => {
                let pass = attempts.len() / endpoints.max(1) + 1;
                let index = attempts.len() % endpoints.max(1);
                attempts.push((pass, attempt.rpc.clone(), attempt.timeout_ms));
                if succeeds(pass, index) {
                    return (attempts, Some(attempt.rpc));
                }
                call.record_failure();
            }
        }
    }
}

#[test]
fn second_endpoint_serves_in_the_first_pass() {
    let ranking = vec![entry("https://c", 80), entry("https://a", 120)];
    let call = started(route_ranking("1", &supported(), Some(ranking), 1000));
    let (attempts, served) = run(call, 2, &|pass, index| pass == 1 && index == 1);
    assert_eq!(
        attempts,
        vec![(1, "https://c".to_string(), 1000), (1, "https://a".to_string(), 1000)]
    );
    assert_eq!(served, Some("https://a".to_string()));
}

#[test]
fn kth_endpoint_takes_k_attempts() {
    let urls: Vec<String> = (0..5).map(|i| format!("https://rpc{i}")).collect();
    for k in 1..=5usize {
        let call = started(RouteCall::new("1", Some(urls.clone()), 250));
        let (attempts, served) = run(call, 5, &|pass, index| pass == 1 && index == k - 1);
        assert_eq!(attempts.len(), k);
        assert!(attempts.iter().all(|(pass, _, timeout)| *pass == 1 && *timeout == 250));
        assert_eq!(served, Some(urls[k - 1].clone()));
    }
}

#[test]
fn second_pass_doubles_the_timeout() {
    let urls = vec!["https://a".to_string(), "https://b".to_string(), "https://c".to_string()];
    let call = started(RouteCall::new("1", Some(urls), 1000));
    let (attempts, served) = run(call, 3, &|pass, index| pass == 2 && index == 1);
    assert_eq!(
        attempts,
        vec![
            (1, "https://a".to_string(), 1000),
            (1, "https://b".to_string(), 1000),
            (1, "https://c".to_string(), 1000),
            (2, "https://a".to_string(), 2000),
            (2, "https://b".to_string(), 2000),
        ]
    );
    assert_eq!(served, Some("https://b".to_string()));
}

#[test]
fn call_fails_after_two_passes() {
    let urls = vec!["https://a".to_string(), "https://b".to_string()];
    let mut call = started(RouteCall::new("137", Some(urls), 4294967295));
    let mut timeouts = Vec::new();
    while let Some(attempt) = call.next_attempt() {
        timeouts.push(attempt.timeout_ms);
        call.record_failure();
    }
    assert_eq!(timeouts, vec![4294967295, 4294967295, 8589934590, 8589934590]);
    call.record_failure();
    assert!(call.next_attempt().is_none());
    let error = call.failure();
    assert_eq!(error.status, 500);
    assert_eq!(error.error, "failed to request all RPCs for chainId: 137");
}

#[test]
fn call_without_endpoints_fails_at_once() {
    let call = started(RouteCall::new("1", Some(Vec::new()), 1000));
    assert!(call.next_attempt().is_none());
    assert_eq!(call.failure().status, 500);
}

#[test]
fn unsupported_chain_is_a_client_error() {
    let error = refused(route_ranking("56", &supported(), Some(vec![entry("https://a", 1)]), 1000));
    assert_eq!(error.status, 400);
    assert_eq!(error.error, "chainId 56 is not supported yet");
    let error = refused(route_ranking("56", &supported(), None, 1000));
    assert_eq!(error.status, 400);
    assert!(check_supported("1", &supported()).is_ok());
    assert!(check_supported("137", &supported()).is_ok());
    assert!(check_supported("13", &supported()).is_err());
    assert!(check_supported("", &supported()).is_err());
    assert!(check_supported("1", &Vec::new()).is_err());
}

#[test]
fn chain_without_ranking_is_a_server_error() {
    let error = refused(route_ranking("1", &supported(), None, 1000));
    assert_eq!(error.status, 500);
    assert_eq!(error.error, "No rpc provided for chainId 1");
    let error = refused(post_chain("1", &service(), &supported(), 1000));
    assert_eq!(error.status, 500);
    assert_eq!(error.error, "No rpc provided for chainId 1");
}

#[test]
fn call_walks_the_published_ranking() {
    let mut service = service();
    publish(&mut service, "1", &[("https://a", 120), ("https://c", 80)]);
    let call = started(post_chain("1", &service, &supported(), 1000));
    let (attempts, served) = run(call, 2, &|_, _| false);
    let urls: Vec<String> = attempts.iter().map(|(_, url, _)| url.clone()).collect();
    assert_eq!(urls, vec!["https://c", "https://a", "https://c", "https://a"]);
    assert_eq!(served, None);
    let error = refused(post_chain("5", &service, &supported(), 1000));
    assert_eq!(error.status, 400);
}

#[test]
fn call_with_api_key_walks_the_endpoints_of_the_key() {
    let mut service = service();
    publish(&mut service, "1", &[("https://public", 80)]);
    service.set_rpcs_for_api_key_cache("key", "1", vec!["https://mine".to_string(), "https://too".to_string()]);
    let call = started(v2::chain::post_chain("1", "key", &service, &supported(), 500));
    let (attempts, served) = run(call, 2, &|pass, index| pass == 1 && index == 0);
    assert_eq!(attempts, vec![(1, "https://mine".to_string(), 500)]);
    assert_eq!(served, Some("https://mine".to_string()));
    let error = refused(v2::chain::post_chain("1", "nobody", &service, &supported(), 500));
    assert_eq!(error.status, 500);
    assert_eq!(error.error, "No rpc provided for chainId 1");
    let error = refused(v2::chain::post_chain("2", "key", &service, &supported(), 500));
    assert_eq!(error.status, 400);
    assert_eq!(error.error, "chainId 2 is not supported yet");
    let error = refused(v2::chain::route_rpcs("1", &supported(), None, 500));
    assert_eq!(error.status, 500);
}

#[test]
fn ranking_gives_its_urls_in_order() {
    let ranking = vec![entry("https://c", 80), entry("https://a", 120)];
    assert_eq!(ranking_urls(&ranking), vec!["https://c".to_string(), "https://a".to_string()]);
    assert_eq!(ranking_urls(&Vec::new()), Vec::<String>::new());
}

#[test]
fn metrics_show_the_ranking() {
    let mut service = service();
    publish(&mut service, "1", &[("https://a", 120), ("https://c", 80)]);
    let response = match get_metrics("1", &service, &supported()) {
        Ok(response) => response,
        Err(error) => panic!("{:?}", error),
    };
    let shown: Vec<(String, u128)> =
        response.rpcs.iter().map(|rpc| (rpc.rpc.clone(), rpc.metrics.response_time_ms)).collect();
    assert_eq!(shown, vec![("https://c".to_string(), 80), ("https://a".to_string(), 120)]);
    match get_metrics("137", &service, &supported()) {
        Ok(_) => panic!("no ranking was published for this chain"),
        Err(error) => {
            assert_eq!(error.status, 500);
            assert_eq!(error.error, "No rpc provided for chainId 137");
        }
    }
    match get_metrics("9", &service, &supported()) {
        Ok(_) => panic!("the chain is not supported"),
        Err(error) => assert_eq!(error.status, 400),
    }
}

#[test]
fn supported_chains_are_listed() {
    let response: ResponseData<Vec<String>> = get_chains(&supported());
    assert_eq!(response.data, supported());
    assert_eq!(ResponseData::build(7u8).data, 7);
}
