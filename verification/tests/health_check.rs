use std::time::Duration;

use rpc_gateway::client::chainlist::{ChainConfig, ChainlistClient};
use rpc_gateway::models::proxy::ProxyConfig;
use rpc_gateway::models::RpcVisibility;
use rpc_gateway::repo::cache::CacheRepo;
use rpc_gateway::services::evm_rpc::{
    check_status, malformed_body, reports_chain_id, transport_error, EvmRpcError, EvmRpcService,
    EvmRpcTestResponse, HealthCheckError, HealthCheckTry, RpcMetrics, CHAIN_ID_REQUEST,
};

fn service() -> EvmRpcService<CacheRepo> {
    EvmRpcService::new(Box::new(ChainlistClient::new()), CacheRepo::new())
}

fn answered(elapsed_ms: u128, result: &str) -> HealthCheckTry {
    HealthCheckTry {
        elapsed_ms,
        response: Ok(Some(EvmRpcTestResponse { jsonrpc: "2.0".to_string(), id: 1, result: result.to_string() })),
    }
}

fn failed(elapsed_ms: u128, error: EvmRpcError) -> HealthCheckTry {
    HealthCheckTry { elapsed_ms, response: Err(error) }
}

#[test]
fn metric_is_the_mean_of_the_tries() {
    let tries = vec![answered(100, "0x1"), answered(200, "0x1"), answered(300, "0x1")];
    assert_eq!(service().rpc_health_check("1", &tries), Ok(RpcMetrics { response_time_ms: 200 }));
    let tries = vec![answered(100, "0x1"), answered(101, "0x1"), answered(101, "0x1")];
    assert_eq!(service().rpc_health_check("1", &tries), Ok(RpcMetrics { response_time_ms: 100 }));
    let tries = vec![answered(7, "0x89")];
    assert_eq!(service().rpc_health_check("137", &tries), Ok(RpcMetrics { response_time_ms: 7 }));
    let tries = vec![answered(0, "0x1"), answered(0, "0x1")];
    assert_eq!(service().rpc_health_check("1", &tries), Ok(RpcMetrics { response_time_ms: 0 }));
    let tries = vec![answered(u128::MAX, "0x1"), answered(u128::MAX, "0x1"), answered(u128::MAX, "0x1")];
    assert_eq!(service().rpc_health_check("1", &tries), Ok(RpcMetrics { response_time_ms: u128::MAX }));
    let tries = vec![answered(u128::MAX, "0x1"), answered(0, "0x1")];
    assert_eq!(service().rpc_health_check("1", &tries), Ok(RpcMetrics { response_time_ms: u128::MAX / 2 }));
    let tries = vec![answered(5, "0x1"), answered(6, "0x1"), answered(7, "0x1"), answered(9, "0x1")];
    assert_eq!(service().rpc_health_check("1", &tries), Ok(RpcMetrics { response_time_ms: 6 }));
}

#[test]
fn one_failed_try_fails_the_probe() {
    let failure = Err(HealthCheckError::TooManyFailedAttempts);
    let tries = vec![answered(100, "0x1"), answered(200, "0x1"), failed(300, EvmRpcError::Timeout)];
    assert_eq!(service().rpc_health_check("1", &tries), failure);
    let tries = vec![failed(1, EvmRpcError::Server), answered(200, "0x1"), answered(200, "0x1")];
    assert_eq!(service().rpc_health_check("1", &tries), failure);
    let tries = vec![answered(100, "0x1"), answered(200, "0x2"), answered(300, "0x1")];
    assert_eq!(service().rpc_health_check("1", &tries), failure);
    let tries = vec![answered(100, "0x1"), HealthCheckTry { elapsed_ms: 5, response: Ok(None) }];
    assert_eq!(service().rpc_health_check("1", &tries), failure);
    let tries = vec![failed(1, EvmRpcError::Client), failed(1, EvmRpcError::Internal("x".to_string()))];
    assert_eq!(service().rpc_health_check("1", &tries), failure);
    let tries = vec![answered(100, "1")];
    assert_eq!(service().rpc_health_check("1", &tries), failure);
}

#[test]
fn reported_chain_id_is_read_from_hexadecimal() {
    assert!(reports_chain_id("0x1", "1"));
    assert!(reports_chain_id("0x89", "137"));
    assert!(reports_chain_id("0xa", "10"));
    assert!(reports_chain_id("0xA", "10"));
    assert!(reports_chain_id("0x0", "0"));
    assert!(reports_chain_id("0x0001", "1"));
    assert!(reports_chain_id("0x+1", "1"));
    assert!(reports_chain_id("0x-1", "-1"));
    assert!(reports_chain_id("0x7fffffffffffffff", "9223372036854775807"));
    assert!(reports_chain_id("0x-8000000000000000", "-9223372036854775808"));
    assert!(reports_chain_id("0xaa36a7", "11155111"));
}

#[test]
fn other_results_report_no_chain_id() {
    assert!(!reports_chain_id("0x1", "01"));
    assert!(!reports_chain_id("0x1", "0x1"));
    assert!(!reports_chain_id("0x1", "2"));
    assert!(!reports_chain_id("0x1", ""));
    assert!(!reports_chain_id("1", "1"));
    assert!(!reports_chain_id("0X1", "1"));
    assert!(!reports_chain_id("0x", "0"));
    assert!(!reports_chain_id("0x", ""));
    assert!(!reports_chain_id("", ""));
    assert!(!reports_chain_id("0", "0"));
    assert!(!reports_chain_id("0x+", "0"));
    assert!(!reports_chain_id("0x-", "0"));
    assert!(!reports_chain_id("0x1g", "1"));
    assert!(!reports_chain_id("0x 1", "1"));
    assert!(!reports_chain_id("0x1 ", "1"));
    assert!(!reports_chain_id("0x8000000000000000", "9223372036854775808"));
    assert!(!reports_chain_id("0x8000000000000000", "-9223372036854775808"));
    assert!(!reports_chain_id("0x-8000000000000001", "-9223372036854775809"));
    assert!(!reports_chain_id("0xffffffffffffffffffffffffffffffffffffffffff", "1"));
    assert!(!reports_chain_id("0x١", "1"));
}

#[test]
fn status_is_judged() {
    assert!(check_status(200, "200 OK").is_ok());
    assert!(check_status(204, "204 No Content").is_ok());
    assert!(check_status(299, "299").is_ok());
    assert!(matches!(check_status(400, "400 Bad Request"), Err(EvmRpcError::Client)));
    assert!(matches!(check_status(429, "429 Too Many Requests"), Err(EvmRpcError::Client)));
    assert!(matches!(check_status(499, "499"), Err(EvmRpcError::Client)));
    assert!(matches!(check_status(500, "500 Internal Server Error"), Err(EvmRpcError::Server)));
    assert!(matches!(check_status(599, "599"), Err(EvmRpcError::Server)));
    match check_status(302, "302 Found") {
        Err(EvmRpcError::Internal(cause)) => assert_eq!(cause, "unknown error: 302 Found"),
        other => panic!("{:?}", other),
    }
    assert!(matches!(check_status(199, "199"), Err(EvmRpcError::Internal(_))));
    assert!(matches!(check_status(300, "300"), Err(EvmRpcError::Internal(_))));
    assert!(matches!(check_status(600, "600"), Err(EvmRpcError::Internal(_))));
    assert!(matches!(check_status(0, "0"), Err(EvmRpcError::Internal(_))));
}

#[test]
fn failed_requests_are_told_apart() {
    assert!(matches!(transport_error(true, "operation timed out"), EvmRpcError::Timeout));
    match transport_error(false, "connection refused") {
        EvmRpcError::Internal(cause) => assert_eq!(cause, "unknown error: connection refused"),
        other => panic!("{:?}", other),
    }
    match malformed_body("expected value at line 1") {
        EvmRpcError::Internal(cause) => assert_eq!(cause, "failed to parse response: expected value at line 1"),
        other => panic!("{:?}", other),
    }
}

#[test]
fn errors_are_printed() {
    assert_eq!(EvmRpcError::Server.message(), "server error");
    assert_eq!(EvmRpcError::Client.message(), "client error");
    assert_eq!(EvmRpcError::Timeout.message(), "rpc timeout");
    assert_eq!(EvmRpcError::Internal("boom".to_string()).message(), "internal error: boom");
    assert_eq!(EvmRpcError::Proxy("no route".to_string()).message(), "proxy error: no route");
}

#[test]
fn http_client_is_set_up() {
    let service = service();
    assert!(service.build_http_client(None, Duration::from_millis(1000)).is_ok());
    let proxy = ProxyConfig { host: "10.0.0.1".to_string(), port: 8080, username: "u".to_string(), password: "p".to_string() };
    assert!(service.build_http_client(Some(&proxy), Duration::from_millis(1000)).is_ok());
    let broken = ProxyConfig { host: "not a host".to_string(), ..proxy };
    match service.build_http_client(Some(&broken), Duration::from_millis(1000)) {
        Err(EvmRpcError::Proxy(cause)) => assert!(cause.starts_with("failed to build proxy: ")),
        Err(other) => panic!("{:?}", other),
        Ok(_) => panic!("the proxy is no address"),
    }
}

fn chain(chain_id: i64, name: &str) -> ChainConfig {
    ChainConfig { chain_id, name: name.to_string(), ..ChainConfig::default() }
}

#[test]
fn served_chains_are_picked_from_the_catalog() {
    let configs = vec![chain(1, "Ethereum"), chain(56, "BNB"), chain(137, "Polygon"), chain(-1, "odd"), chain(1, "again")];
    let ids = vec!["137".to_string(), "1".to_string(), "-1".to_string()];
    let chains = service().init_chains(&configs, &ids);
    let picked: Vec<(String, String)> = chains.iter().map(|chain| (chain.id.clone(), chain.name.clone())).collect();
    assert_eq!(
        picked,
        vec![
            ("1".to_string(), "Ethereum".to_string()),
            ("137".to_string(), "Polygon".to_string()),
            ("-1".to_string(), "odd".to_string()),
            ("1".to_string(), "again".to_string()),
        ]
    );
    assert!(service().init_chains(&configs, &Vec::new()).is_empty());
}

#[test]
fn catalog_endpoints_are_public() {
    let urls = vec!["https://a".to_string(), "https://b".to_string()];
    let rpcs = service().update_public_rpcs("1", &urls);
    assert_eq!(rpcs.len(), 2);
    assert!(rpcs.iter().all(|rpc| rpc.chain_id == "1" && rpc.visibility == RpcVisibility::Public));
    assert_eq!(rpcs[0].url, "https://a");
    assert_eq!(rpcs[1].url, "https://b");
}

#[test]
fn probe_call_asks_for_the_chain_id() {
    let request: serde_json::Value = serde_json::from_str(CHAIN_ID_REQUEST).expect("the probe call is JSON");
    assert_eq!(request["method"], "eth_chainId");
    assert_eq!(request["params"], serde_json::Value::Array(Vec::new()));
    assert_eq!(request["id"], 1);
    assert_eq!(request["jsonrpc"], "2.0");
    assert_eq!(request.as_object().map(|fields| fields.len()), Some(4));
}
