use rpc_gateway::client::proxyseller::{
    ProxysellerClient, ProxysellerError, ProxysellerItems, ProxysellerOrder, ProxysellerProxy,
};
use rpc_gateway::models::proxy::ProxyConfig;
use rpc_gateway::services::proxy::{ProxyService, ProxyServiceError};

fn client() -> ProxysellerClient {
    ProxysellerClient::new(
        "provider-key".to_string(),
        vec![ProxysellerOrder("mix".to_string(), "1973991".to_string())],
        3000,
    )
}

fn credential(host: &str) -> ProxyConfig {
    ProxyConfig { host: host.to_string(), port: 8080, username: "user".to_string(), password: "pass".to_string() }
}

fn pool(hosts: &[&str]) -> ProxyService {
    let mut service = ProxyService::new(Box::new(client()));
    assert_eq!(service.init_proxies(hosts.iter().map(|host| credential(host)).collect()), Ok(()));
    service
}

fn current(service: &ProxyService) -> Option<String> {
    service.get_proxy().map(|proxy| proxy.host.clone())
}

/// Rotates `service` against credentials that work where `healthy` says so, by
/// host. Gives the hosts that were checked and how the rotation ended.
fn rotate(service: &mut ProxyService, healthy: &[&str]) -> (Vec<String>, Result<(), ProxyServiceError>) {
    let mut checked = Vec::new();
    let rotation = match service.begin_rotation() {
        Ok(rotation) => rotation,
        Err(error) => return (checked, Err(error)),
    };
    loop {
        if let Err(error) = service.next_candidate(&rotation) {
            return (checked, Err(error));
        }
        let host = current(service).expect("a pool under rotation holds credentials");
        checked.push(host.clone());
        if healthy.contains(&host.as_str()) {
            return (checked, Ok(()));
        }
    }
}

#[test]
fn first_rotation_checks_the_current_credential_first() {
    let mut service = pool(&["first", "second", "third"]);
    assert_eq!(current(&service), Some("first".to_string()));
    let (checked, done) = rotate(&mut service, &["third"]);
    assert_eq!(done, Ok(()));
    assert_eq!(checked, vec!["first", "second", "third"]);
    assert_eq!(current(&service), Some("third".to_string()));
}

#[test]
fn first_rotation_keeps_a_current_credential_that_works() {
    let mut service = pool(&["first", "second", "third"]);
    let (checked, done) = rotate(&mut service, &["first", "second"]);
    assert_eq!(done, Ok(()));
    assert_eq!(checked, vec!["first"]);
    assert_eq!(current(&service), Some("first".to_string()));
}

#[test]
fn later_rotation_moves_on_before_it_checks() {
    let mut service = pool(&["first", "second", "third"]);
    assert_eq!(rotate(&mut service, &["first"]).1, Ok(()));
    let (checked, done) = rotate(&mut service, &["first", "third"]);
    assert_eq!(done, Ok(()));
    assert_eq!(checked, vec!["second", "third"]);
    assert_eq!(current(&service), Some("third".to_string()));
    let (checked, done) = rotate(&mut service, &["second"]);
    assert_eq!(done, Ok(()));
    assert_eq!(checked, vec!["first", "second"]);
    assert_eq!(current(&service), Some("second".to_string()));
}

#[test]
fn rotation_fails_when_it_is_back_where_it_started() {
    let mut service = pool(&["first", "second", "third"]);
    let (checked, done) = rotate(&mut service, &[]);
    assert_eq!(done, Err(ProxyServiceError::NoHealthyProxy));
    assert_eq!(checked, vec!["first", "second", "third"]);
    assert_eq!(current(&service), Some("first".to_string()));
    let (checked, done) = rotate(&mut service, &["first"]);
    assert_eq!(done, Err(ProxyServiceError::NoHealthyProxy));
    assert_eq!(checked, vec!["second", "third"]);
    assert_eq!(current(&service), Some("first".to_string()));
}

#[test]
fn rotation_visits_at_most_every_credential() {
    let hosts = ["first", "second", "third", "fourth", "fifth"];
    for start in 0..hosts.len() {
        for target in 0..hosts.len() {
            let mut service = pool(&hosts);
            if start > 0 {
                assert_eq!(rotate(&mut service, &["first"]).1, Ok(()));
                assert_eq!(rotate(&mut service, &[hosts[start]]).1, Ok(()));
                assert_eq!(current(&service), Some(hosts[start].to_string()));
                let (checked, done) = rotate(&mut service, &[hosts[target]]);
                assert!(checked.len() <= hosts.len());
                if target == start {
                    assert_eq!(done, Err(ProxyServiceError::NoHealthyProxy));
                    assert_eq!(checked.len(), hosts.len() - 1);
                    assert_eq!(current(&service), Some(hosts[start].to_string()));
                } else {
                    assert_eq!(done, Ok(()));
                    assert_eq!(checked.len(), (target + hosts.len() - start) % hosts.len());
                    assert_eq!(current(&service), Some(hosts[target].to_string()));
                }
            } else {
                let (checked, done) = rotate(&mut service, &[hosts[target]]);
                assert_eq!(done, Ok(()));
                assert_eq!(checked.len(), target + 1);
                assert_eq!(current(&service), Some(hosts[target].to_string()));
            }
        }
    }
}

#[test]
fn pool_of_one_credential() {
    let mut service = pool(&["only"]);
    let (checked, done) = rotate(&mut service, &["only"]);
    assert_eq!((checked.len(), done), (1, Ok(())));
    let (checked, done) = rotate(&mut service, &["only"]);
    assert_eq!((checked.len(), done), (0, Err(ProxyServiceError::NoHealthyProxy)));
    assert_eq!(current(&service), Some("only".to_string()));
}

#[test]
fn empty_pool_cannot_be_used() {
    let mut service = ProxyService::new(Box::new(client()));
    assert!(service.get_proxy().is_none());
    assert!(matches!(service.begin_rotation(), Err(ProxyServiceError::NotInitiated)));
    let (checked, done) = rotate(&mut service, &["first"]);
    assert_eq!((checked.len(), done), (0, Err(ProxyServiceError::NotInitiated)));
    assert_eq!(service.proxy_client().timeout_ms, 3000);
}

#[test]
fn filling_the_pool_replaces_it() {
    let mut service = pool(&["first", "second", "third"]);
    assert_eq!(rotate(&mut service, &["third"]).1, Ok(()));
    assert_eq!(service.init_proxies(Vec::new()), Err(ProxyServiceError::NoProxies));
    assert_eq!(current(&service), Some("third".to_string()));
    assert_eq!(service.init_proxies(vec![credential("spare"), credential("other")]), Ok(()));
    assert_eq!(current(&service), Some("spare".to_string()));
    let (checked, done) = rotate(&mut service, &["spare"]);
    assert_eq!((checked, done), (vec!["spare".to_string()], Ok(())));
    let mut empty = ProxyService::new(Box::new(client()));
    assert_eq!(empty.init_proxies(Vec::new()), Err(ProxyServiceError::NoProxies));
    assert!(empty.get_proxy().is_none());
    assert!(matches!(empty.begin_rotation(), Err(ProxyServiceError::NotInitiated)));
}

#[test]
fn provider_addresses() {
    let client = client();
    assert_eq!(
        client.proxy_list_url(&client.orders[0]),
        "https://proxy-seller.com/personal/api/v1/provider-key/proxy/list/mix"
    );
    assert_eq!(
        client.proxy_check_url(),
        "https://proxy-seller.com/personal/api/v1/provider-key/tools/proxy/check"
    );
    assert_eq!(client.proxy_string(&credential("10.0.0.1")), "user:pass@10.0.0.1:8080");
    let odd = ProxyConfig { host: "h".to_string(), port: -1, username: String::new(), password: "p".to_string() };
    assert_eq!(client.proxy_string(&odd), ":p@h:-1");
}

#[test]
fn provider_check_is_judged() {
    let client = client();
    assert_eq!(client.check_proxy("success", true, 2999), Ok(true));
    assert_eq!(client.check_proxy("success", true, 3000), Ok(false));
    assert_eq!(client.check_proxy("success", true, -5), Ok(true));
    assert_eq!(client.check_proxy("success", false, 10), Ok(false));
    assert_eq!(client.check_proxy("error", true, 10), Err(ProxysellerError::StatusNotSuccess));
    assert_eq!(client.check_proxy("", true, 10), Err(ProxysellerError::StatusNotSuccess));
    assert_eq!(client.check_proxy("Success", true, 10), Err(ProxysellerError::StatusNotSuccess));
}

fn listed(ip: &str, port: i32) -> ProxysellerProxy {
    ProxysellerProxy { ip: ip.to_string(), port_http: port, login: "l".to_string(), password: "p".to_string() }
}

#[test]
fn provider_lists_come_in_both_shapes() {
    let orders = vec![
        ProxysellerItems::Array(vec![listed("1.1.1.1", 1), listed("2.2.2.2", 2)]),
        ProxysellerItems::Record(vec![("7".to_string(), listed("3.3.3.3", 3))]),
        ProxysellerItems::Array(Vec::new()),
        ProxysellerItems::Record(vec![("a".to_string(), listed("4.4.4.4", 4)), ("b".to_string(), listed("5.5.5.5", 5))]),
    ];
    let proxies = client().fetch_proxies(&orders);
    let seen: Vec<(String, i32, String, String)> = proxies
        .iter()
        .map(|proxy| (proxy.host.clone(), proxy.port, proxy.username.clone(), proxy.password.clone()))
        .collect();
    let expected: Vec<(String, i32, String, String)> = [("1.1.1.1", 1), ("2.2.2.2", 2), ("3.3.3.3", 3), ("4.4.4.4", 4), ("5.5.5.5", 5)]
        .iter()
        .map(|(ip, port)| (ip.to_string(), *port, "l".to_string(), "p".to_string()))
        .collect();
    assert_eq!(seen, expected);
    assert!(client().fetch_proxies(&Vec::new()).is_empty());
}

#[test]
fn credential_gives_a_proxy() {
    let proxy = credential("10.0.0.1");
    assert_eq!(proxy.proxy_url(), "http://10.0.0.1:8080");
    assert!(proxy.to_proxy().is_ok());
    let broken = credential("not a host");
    assert_eq!(broken.proxy_url(), "http://not a host:8080");
    match broken.to_proxy() {
        Ok(_) => panic!("a host with blanks is no address"),
        Err(invalid) => assert!(!invalid.reason.is_empty()),
    }
    let negative = ProxyConfig { port: -1, ..credential("10.0.0.1") };
    assert_eq!(negative.proxy_url(), "http://10.0.0.1:-1");
    assert!(negative.to_proxy().is_err());
}
