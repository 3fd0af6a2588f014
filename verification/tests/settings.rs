use rpc_gateway::controllers::v2::groups::{check_rpc_url, post_group_rpc, AddGroupRpcRequest};
use rpc_gateway::middleware::{RequestCount, RequestLimiter};
use rpc_gateway::models::monitoring::Monitoring;
use rpc_gateway::models::RpcVisibility;
use rpc_gateway::repo::cache::CacheRepo;
use rpc_gateway::repo::config::{
    parse_feed_max_timeout, parse_port, parse_supported_chain_ids, rocket_oauth, ConfigError, ConfigRepo, ConfigVars,
};
use rpc_gateway::services::evm_rpc::EvmRpcCache;
use rpc_gateway::services::group::GroupCache;
use rpc_gateway::services::monitoring::{MonitoringCache, MonitoringService};
use rpc_gateway::util::text::{chars_of, contains_chars, split_lines, string_of, trim_bounds};
use rpc_gateway::util::{concat3, contains_string, number_to_string, str_equal};

fn vars() -> ConfigVars {
    ConfigVars {
        port: "8000".to_string(),
        proxyseller_api_key: "provider-key".to_string(),
        supported_chain_ids: "1,137,10".to_string(),
        feed_max_timeout_ms: "1500".to_string(),
        frontend_url_sign_in: "https://front/sign-in".to_string(),
        frontend_url_profile: "https://front/profile".to_string(),
        secret_key: "cookie-key".to_string(),
        database_url: "postgres://localhost/gateway".to_string(),
        google_client_id: "id".to_string(),
        google_client_secret: "client-secret".to_string(),
        google_redirect_uri: "https://front/auth".to_string(),
    }
}

#[test]
fn settings_are_read() {
    let config = ConfigRepo::new(vars()).expect("the settings are good");
    assert_eq!(config.port, 8000);
    assert_eq!(config.supported_chain_ids, vec!["1", "137", "10"]);
    assert_eq!(config.feed_max_timeout_ms, 1500);
    assert_eq!(config.proxyseller_api_key, "provider-key");
    assert_eq!(config.secret_key, "cookie-key");
    assert_eq!(config.frontend_url_sign_in, "https://front/sign-in");
    assert_eq!(config.frontend_url_profile, "https://front/profile");
    assert_eq!(config.database_url, "postgres://localhost/gateway");
    assert_eq!(
        config.rocket_oauth,
        "\n            {\n                google =  {\n                    provider = \"Google\",\n                    client_id = \"id\",\n                    client_secret = \"client-secret\",\n                    redirect_uri = \"https://front/auth\"\n                }\n            }"
    );
    assert_eq!(rocket_oauth("a", "b", "c"), config.rocket_oauth.replace("\"id\"", "\"a\"").replace("client-secret", "b").replace("https://front/auth", "c"));
}

#[test]
fn bad_settings_are_told_apart() {
    assert_eq!(ConfigRepo::new(ConfigVars { port: "http".to_string(), ..vars() }).err(), Some(ConfigError::Port));
    assert_eq!(
        ConfigRepo::new(ConfigVars { feed_max_timeout_ms: "-1".to_string(), ..vars() }).err(),
        Some(ConfigError::FeedMaxTimeout)
    );
    assert_eq!(
        ConfigRepo::new(ConfigVars { port: "".to_string(), feed_max_timeout_ms: "".to_string(), ..vars() }).err(),
        Some(ConfigError::Port)
    );
}

#[test]
fn numbers_are_read_as_the_language_reads_them() {
    for text in ["0", "1", "-1", "+1", "007", "2147483647", "-2147483648", "2147483648", "-2147483649", "", "+", "-", "1 ", " 1", "1_000", "0x10", "١", "99999999999999999999999999"] {
        assert_eq!(parse_port(text).ok(), text.parse::<i32>().ok(), "{:?}", text);
        assert_eq!(parse_feed_max_timeout(text).ok(), text.parse::<u32>().ok(), "{:?}", text);
    }
    assert_eq!(parse_feed_max_timeout("4294967295"), Ok(4294967295));
    assert_eq!(parse_feed_max_timeout("4294967296"), Err(ConfigError::FeedMaxTimeout));
    assert_eq!(parse_feed_max_timeout("-0"), Err(ConfigError::FeedMaxTimeout));
    assert_eq!(parse_port("-0"), Ok(0));
}

#[test]
fn chain_ids_are_separated_by_commas() {
    assert_eq!(parse_supported_chain_ids("1,137"), vec!["1", "137"]);
    assert_eq!(parse_supported_chain_ids("1"), vec!["1"]);
    assert_eq!(parse_supported_chain_ids(""), vec![""]);
    assert_eq!(parse_supported_chain_ids("1,,2,"), vec!["1", "", "2", ""]);
    assert_eq!(parse_supported_chain_ids(" 1, 2"), vec![" 1", " 2"]);
}

#[test]
fn numbers_are_printed_in_decimal() {
    for number in [0i64, 1, -1, 9, 10, 11, 99, 100, 137, -137, 1234567890, i64::MAX, i64::MIN, i64::MIN + 1] {
        assert_eq!(number_to_string(number), number.to_string());
    }
}

#[test]
fn texts_are_compared_and_joined() {
    assert!(str_equal("", ""));
    assert!(str_equal("abc", "abc"));
    assert!(!str_equal("abc", "abd"));
    assert!(!str_equal("abc", "ab"));
    assert_eq!(concat3("a", "", "c"), "ac");
    assert_eq!(concat3("chainId ", "1", " is not supported yet"), "chainId 1 is not supported yet");
    let items = vec!["1".to_string(), "137".to_string()];
    assert!(contains_string(&items, "137"));
    assert!(!contains_string(&items, "13"));
    assert!(!contains_string(&Vec::new(), ""));
}

#[test]
fn texts_are_cut_and_searched() {
    assert_eq!(chars_of("héllo"), vec!['h', 'é', 'l', 'l', 'o']);
    assert_eq!(string_of(&chars_of("héllo"), 1, 4), "éll");
    assert_eq!(string_of(&chars_of("héllo"), 2, 2), "");
    for text in ["", " ", "a", " a ", "\t a b \r\n", "\u{3000}x\u{2003}", "\u{200B}x", "a\u{85}", "\u{1680}\u{2028}\u{2029}\u{202F}\u{205F}\u{A0}z\u{B}\u{C}"] {
        let chars = chars_of(text);
        let (from, to) = trim_bounds(&chars);
        assert_eq!(string_of(&chars, from, to), text.trim(), "{:?}", text);
    }
    for text in ["", "\n", "a", "a\nb", "a\n\nb\n", "\r\n"] {
        let lines: Vec<String> = split_lines(&chars_of(text)).iter().map(|line| line.iter().collect()).collect();
        let expected: Vec<String> = text.split('\n').map(|line| line.to_string()).collect();
        assert_eq!(lines, expected, "{:?}", text);
    }
    for (haystack, needle) in [("", ""), ("a", ""), ("", "a"), ("polysplit", "polysplit"), ("xpolysplit", "polysplit"), ("polyspli", "polysplit"), ("polypolysplit", "polysplit"), ("aab", "ab"), ("aba", "bb")] {
        assert_eq!(contains_chars(&chars_of(haystack), &chars_of(needle)), haystack.contains(needle), "{:?} {:?}", haystack, needle);
    }
}

#[test]
fn endpoints_have_to_be_reached_over_https() {
    assert!(check_rpc_url("https://rpc.example.org/v1").is_ok());
    assert!(check_rpc_url("HTTPS://rpc.example.org").is_ok());
    let error = check_rpc_url("http://rpc.example.org").unwrap_err();
    assert_eq!((error.status, error.error.as_str()), (400, "Unsupported schema url"));
    let error = check_rpc_url("wss://rpc.example.org").unwrap_err();
    assert_eq!((error.status, error.error.as_str()), (400, "Unsupported schema url"));
    let error = check_rpc_url("rpc.example.org").unwrap_err();
    assert_eq!((error.status, error.error.as_str()), (400, "Bad format of url: relative URL without a base"));
    let error = check_rpc_url("https://").unwrap_err();
    assert_eq!((error.status, error.error.as_str()), (400, "Bad format of url: empty host"));
    let rpc = post_group_rpc(AddGroupRpcRequest { chain_id: "1".to_string(), url: "https://mine.example.org".to_string() })
        .expect("the endpoint passes");
    assert_eq!((rpc.chain_id.as_str(), rpc.url.as_str(), rpc.visibility), ("1", "https://mine.example.org", RpcVisibility::Private));
    assert_eq!(
        post_group_rpc(AddGroupRpcRequest { chain_id: "1".to_string(), url: "ftp://mine.example.org".to_string() })
            .unwrap_err()
            .status,
        400
    );
}

#[test]
fn requests_are_counted_in_windows() {
    let limiter = RequestLimiter;
    let first = limiter.on_request(None, 1000);
    assert_eq!(first, RequestCount { count: 1, since: 1000 });
    let second = limiter.on_request(Some(first), 1060);
    assert_eq!(second, RequestCount { count: 2, since: 1000 });
    let third = limiter.on_request(Some(second), 1061);
    assert_eq!(third, RequestCount { count: 1, since: 1061 });
    assert!(!limiter.on_response(None));
    assert!(!limiter.on_response(Some(RequestCount { count: 100, since: 0 })));
    assert!(limiter.on_response(Some(RequestCount { count: 101, since: 0 })));
}

#[test]
fn requests_are_tallied() {
    assert_eq!(Monitoring::new().income_requests, 0);
    let mut service = MonitoringService::new(CacheRepo::new());
    service.inc_income_requests();
    service.inc_income_requests();
    service.inc_income_requests();
    service.inc_success_income_requests();
    service.inc_success_income_requests();
    service.inc_error_income_requests();
    let monitoring = service.get_monitoring();
    assert_eq!(
        (monitoring.income_requests, monitoring.success_income_requests, monitoring.error_income_requests),
        (3, 2, 1)
    );
    let mut repo = CacheRepo::new();
    repo.increment_error_income_requests();
    assert_eq!(repo.get_monitoring().error_income_requests, 1);
    assert_eq!(repo.get_monitoring().income_requests, 0);
}

fn urls(urls: &[&str]) -> Vec<String> {
    urls.iter().map(|url| url.to_string()).collect()
}

#[test]
fn renewed_api_key_takes_the_endpoints_along() {
    let mut repo = CacheRepo::new();
    repo.set_rpcs_for_api_key("old", "1", urls(&["https://a"]));
    repo.set_rpcs_for_api_key("old", "137", urls(&["https://b", "https://c"]));
    repo.set_rpcs_for_api_key("other", "1", urls(&["https://d"]));
    repo.set_rpcs_for_api_key("new", "10", urls(&["https://e"]));
    repo.update_api_key("old", "new");
    assert_eq!(repo.get_rpcs_for_api_key("new", "1"), Some(urls(&["https://a"])));
    assert_eq!(repo.get_rpcs_for_api_key("new", "137"), Some(urls(&["https://b", "https://c"])));
    assert_eq!(repo.get_rpcs_for_api_key("new", "10"), None);
    assert_eq!(repo.get_rpcs_for_api_key("old", "1"), None);
    assert_eq!(repo.get_rpcs_for_api_key("old", "137"), None);
    assert_eq!(repo.get_rpcs_for_api_key("other", "1"), Some(urls(&["https://d"])));
    repo.update_api_key("missing", "other");
    assert_eq!(repo.get_rpcs_for_api_key("other", "1"), Some(urls(&["https://d"])));
    repo.update_api_key("other", "other");
    assert_eq!(repo.get_rpcs_for_api_key("other", "1"), Some(urls(&["https://d"])));
    repo.set_rpcs_for_api_key("other", "1", urls(&[]));
    assert_eq!(repo.get_rpcs_for_api_key("other", "1"), Some(Vec::new()));
}
