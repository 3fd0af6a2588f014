use rpc_gateway::crons::{
    batch_ranges, group_rpcs_by_chain_id, publish_api_key_rpcs, publish_ranking, rank_rpcs,
    results_in_candidate_order, BATCH_SIZE,
};
use rpc_gateway::client::chainlist::ChainlistClient;
use rpc_gateway::models::{Rpc, RpcVisibility};
use rpc_gateway::repo::cache::{cached_ranking, CacheRepo};
use rpc_gateway::services::evm_rpc::{EvmRpcService, HealthCheckError, RpcMetrics};

fn ok(url: &str, ms: u128) -> (String, Result<RpcMetrics, HealthCheckError>) {
    (url.to_string(), Ok(RpcMetrics { response_time_ms: ms }))
}

fn failed(url: &str) -> (String, Result<RpcMetrics, HealthCheckError>) {
    (url.to_string(), Err(HealthCheckError::TooManyFailedAttempts))
}

fn entry(url: &str, ms: u128) -> (String, RpcMetrics) {
    (url.to_string(), RpcMetrics { response_time_ms: ms })
}

fn rpc(id: i32, chain_id: &str, url: &str) -> Rpc {
    Rpc { id, chain_id: chain_id.to_string(), url: url.to_string(), visibility: RpcVisibility::Private }
}

fn urls(urls: &[&str]) -> Vec<String> {
    urls.iter().map(|url| url.to_string()).collect()
}

fn service() -> EvmRpcService<CacheRepo> {
    EvmRpcService::new(Box::new(ChainlistClient::new()), CacheRepo::new())
}

#[test]
fn ranking_leaves_out_the_failed_endpoint() {
    let results = vec![ok("https://a", 120), failed("https://b"), ok("https://c", 80)];
    assert_eq!(rank_rpcs(&results), vec![entry("https://c", 80), entry("https://a", 120)]);
}

#[test]
fn ranking_of_nothing_is_empty() {
    assert_eq!(rank_rpcs(&Vec::new()), Vec::new());
}

#[test]
fn ranking_of_failures_only_is_empty() {
    let results = vec![failed("https://a"), failed("https://b")];
    assert_eq!(rank_rpcs(&results), Vec::new());
}

#[test]
fn ranking_is_sorted_by_ascending_latency() {
    let results = vec![ok("u5", 5), ok("u1", 1), ok("u4", 4), ok("u2", 2), ok("u3", 3), ok("u0", 0)];
    let ranking = rank_rpcs(&results);
    assert_eq!(
        ranking,
        vec![entry("u0", 0), entry("u1", 1), entry("u2", 2), entry("u3", 3), entry("u4", 4), entry("u5", 5)]
    );
}

#[test]
fn ranking_keeps_the_latest_result_of_an_endpoint() {
    let results = vec![ok("https://a", 10), ok("https://b", 20), ok("https://a", 30)];
    assert_eq!(rank_rpcs(&results), vec![entry("https://b", 20), entry("https://a", 30)]);
    let results = vec![ok("https://a", 10), ok("https://b", 20), failed("https://a")];
    assert_eq!(rank_rpcs(&results), vec![entry("https://b", 20)]);
    let results = vec![failed("https://a"), ok("https://a", 7)];
    assert_eq!(rank_rpcs(&results), vec![entry("https://a", 7)]);
}

#[test]
fn ranking_keeps_equal_latencies_in_order_of_appearance() {
    let results = vec![ok("x", 50), ok("y", 50), ok("w", 10), ok("z", 50)];
    assert_eq!(rank_rpcs(&results), vec![entry("w", 10), entry("x", 50), entry("y", 50), entry("z", 50)]);
}

#[test]
fn ranking_the_same_round_twice_gives_the_same_ranking() {
    let results = vec![ok("a", 3), failed("b"), ok("c", 1), ok("d", 3), ok("a", 2)];
    let first = rank_rpcs(&results);
    let second = rank_rpcs(&results);
    assert_eq!(first, second);
    let mut doubled = Vec::new();
    for _ in 0..2 {
        doubled.push(ok("a", 3));
        doubled.push(failed("b"));
        doubled.push(ok("c", 1));
        doubled.push(ok("d", 3));
        doubled.push(ok("a", 2));
    }
    assert_eq!(rank_rpcs(&doubled), first);
}

#[test]
fn ranking_a_ranking_again_changes_nothing() {
    let results = vec![ok("a", 3), failed("b"), ok("c", 1), ok("d", 3)];
    let first = rank_rpcs(&results);
    let again: Vec<(String, Result<RpcMetrics, HealthCheckError>)> =
        first.iter().map(|(url, metrics)| (url.clone(), Ok(*metrics))).collect();
    assert_eq!(rank_rpcs(&again), first);
}

#[test]
fn batches_cover_all_endpoints() {
    assert_eq!(BATCH_SIZE, 100);
    assert_eq!(batch_ranges(250, 100), vec![(0, 100), (100, 200), (200, 250)]);
    assert_eq!(batch_ranges(200, 100), vec![(0, 100), (100, 200)]);
    assert_eq!(batch_ranges(100, 100), vec![(0, 100)]);
    assert_eq!(batch_ranges(1, 100), vec![(0, 1)]);
    assert_eq!(batch_ranges(0, 100), Vec::new());
    assert_eq!(batch_ranges(3, 1), vec![(0, 1), (1, 2), (2, 3)]);
}

#[test]
fn endpoints_are_grouped_by_chain() {
    let rpcs = vec![
        rpc(1, "137", "https://polygon-a"),
        rpc(2, "1", "https://ethereum-a"),
        rpc(3, "137", "https://polygon-b"),
        rpc(4, "1", "https://ethereum-b"),
        rpc(5, "10", "https://optimism-a"),
    ];
    assert_eq!(
        group_rpcs_by_chain_id(&rpcs),
        vec![
            ("137".to_string(), vec!["https://polygon-a".to_string(), "https://polygon-b".to_string()]),
            ("1".to_string(), vec!["https://ethereum-a".to_string(), "https://ethereum-b".to_string()]),
            ("10".to_string(), vec!["https://optimism-a".to_string()]),
        ]
    );
    assert_eq!(group_rpcs_by_chain_id(&Vec::new()), Vec::new());
}

#[test]
fn published_ranking_is_read_back() {
    let mut service = service();
    assert_eq!(service.get_rpcs_for_chain_id_cache("1"), None);
    let results = vec![ok("https://a", 120), failed("https://b"), ok("https://c", 80)];
    publish_ranking(&mut service, "1", &urls(&["https://a", "https://b", "https://c"]), &results);
    assert_eq!(
        service.get_rpcs_for_chain_id_cache("1"),
        Some(vec![entry("https://c", 80), entry("https://a", 120)])
    );
    assert_eq!(service.get_rpcs_for_chain_id_cache("2"), None);
    publish_ranking(&mut service, "1", &urls(&["https://b"]), &vec![ok("https://b", 5)]);
    assert_eq!(service.get_rpcs_for_chain_id_cache("1"), Some(vec![entry("https://b", 5)]));
}

#[test]
fn published_ranking_of_failures_is_empty_not_missing() {
    let mut service = service();
    publish_ranking(&mut service, "1", &urls(&["https://a"]), &vec![failed("https://a")]);
    assert_eq!(service.get_rpcs_for_chain_id_cache("1"), Some(Vec::new()));
}

#[test]
fn api_key_endpoints_are_published_chain_by_chain() {
    let mut service = service();
    let rpcs = vec![rpc(1, "137", "https://polygon-a"), rpc(2, "1", "https://ethereum-a"), rpc(3, "137", "https://polygon-b")];
    publish_api_key_rpcs(&mut service, "key", &rpcs);
    assert_eq!(
        service.get_rpcs_for_api_key_cache("key", "137"),
        Some(vec!["https://polygon-a".to_string(), "https://polygon-b".to_string()])
    );
    assert_eq!(service.get_rpcs_for_api_key_cache("key", "1"), Some(vec!["https://ethereum-a".to_string()]));
    assert_eq!(service.get_rpcs_for_api_key_cache("key", "10"), None);
    assert_eq!(service.get_rpcs_for_api_key_cache("other", "1"), None);
    publish_api_key_rpcs(&mut service, "key", &vec![rpc(2, "1", "https://ethereum-c")]);
    assert_eq!(service.get_rpcs_for_api_key_cache("key", "1"), Some(vec!["https://ethereum-c".to_string()]));
    assert_eq!(
        service.get_rpcs_for_api_key_cache("key", "137"),
        Some(vec!["https://polygon-a".to_string(), "https://polygon-b".to_string()])
    );
}

#[test]
fn empty_api_key_publishes_nothing() {
    let mut service = service();
    publish_api_key_rpcs(&mut service, "", &vec![rpc(1, "1", "https://ethereum-a")]);
    assert_eq!(service.get_rpcs_for_api_key_cache("", "1"), None);
    service.set_rpcs_for_api_key_cache("", "1", vec!["https://ethereum-a".to_string()]);
    assert_eq!(service.get_rpcs_for_api_key_cache("", "1"), None);
    service.set_rpcs_for_api_key_cache("k", "1", vec!["https://ethereum-a".to_string()]);
    assert_eq!(service.get_rpcs_for_api_key_cache("k", "1"), Some(vec!["https://ethereum-a".to_string()]));
}

#[test]
fn cached_ranking_is_handed_on_as_it_is() {
    assert_eq!(cached_ranking(None), None);
    assert_eq!(cached_ranking(Some(Vec::new())), Some(Vec::new()));
    assert_eq!(
        cached_ranking(Some(vec![("https://c".to_string(), 80), ("https://a".to_string(), 120)])),
        Some(vec![entry("https://c", 80), entry("https://a", 120)])
    );
}

#[test]
fn results_are_taken_in_candidate_order() {
    let candidates = urls(&["https://a", "https://b", "https://c", "https://d"]);
    let arrived = vec![ok("https://c", 7), failed("https://a"), ok("https://x", 1), ok("https://b", 7), ok("https://a", 9)];
    assert_eq!(
        results_in_candidate_order(&candidates, &arrived),
        vec![ok("https://a", 9), ok("https://b", 7), ok("https://c", 7)]
    );
    assert_eq!(results_in_candidate_order(&Vec::new(), &arrived), Vec::new());
    assert_eq!(results_in_candidate_order(&candidates, &Vec::new()), Vec::new());
    let twice = urls(&["https://b", "https://a", "https://b"]);
    assert_eq!(
        results_in_candidate_order(&twice, &arrived),
        vec![ok("https://b", 7), ok("https://a", 9), ok("https://b", 7)]
    );
}

#[test]
fn two_ticks_with_the_same_results_publish_the_same_ranking() {
    let candidates = urls(&["https://a", "https://b", "https://c", "https://d", "https://e"]);
    let first = vec![ok("https://a", 50), ok("https://b", 50), failed("https://c"), ok("https://d", 10), ok("https://e", 50)];
    let second = vec![ok("https://e", 50), ok("https://d", 10), ok("https://b", 50), failed("https://c"), ok("https://a", 50)];
    let expected = vec![entry("https://d", 10), entry("https://a", 50), entry("https://b", 50), entry("https://e", 50)];
    let mut service = service();
    publish_ranking(&mut service, "1", &candidates, &first);
    assert_eq!(service.get_rpcs_for_chain_id_cache("1"), Some(expected.clone()));
    publish_ranking(&mut service, "1", &candidates, &second);
    assert_eq!(service.get_rpcs_for_chain_id_cache("1"), Some(expected));
}

#[test]
fn nothing_is_ranked_before_the_first_tick() {
    let service = service();
    assert_eq!(service.get_rpcs_for_chain_id_cache("1"), None);
    assert_eq!(service.get_rpcs_for_chain_id_cache(""), None);
}

#[test]
fn only_candidates_are_published() {
    let mut service = service();
    publish_ranking(&mut service, "1", &urls(&["https://a"]), &vec![ok("https://b", 1), ok("https://a", 2)]);
    assert_eq!(service.get_rpcs_for_chain_id_cache("1"), Some(vec![entry("https://a", 2)]));
}
