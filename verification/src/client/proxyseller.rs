//! The provider the outbound proxies are rented from.

use vstd::prelude::*;
use crate::models::proxy::{ProxyConfig, ProxyConfigView, proxies_view};
use crate::util::{decimal, number_to_string, str_equal};

verus! {

/// An order with the provider: its kind and its number.
#[derive(Clone)]
pub struct ProxysellerOrder(pub String, pub String);

/// Asks the provider which proxies are rented and whether one still works.
#[derive(Clone)]
pub struct ProxysellerClient {
    pub api_key: String,
    pub orders: Vec<ProxysellerOrder>,
    pub timeout_ms: i32,
}

impl ProxysellerClient {
    pub fn new(proxyseller_api_key: String, orders: Vec<ProxysellerOrder>, timeout_ms: i32) -> (client:
        Self)
        ensures
            client.api_key == proxyseller_api_key,
            client.orders == orders,
            client.timeout_ms == timeout_ms,
    {
        Self { api_key: proxyseller_api_key, orders, timeout_ms }
    }
}

/// Where the provider's API lives.
pub const PROXYSELLER_BASE_URL_API: &'static str = "https://proxy-seller.com/personal/api/v1";

/// The status with which the provider marks an answer as good.
pub const PROXYSELLER_STATUS_SUCCESS: &'static str = "success";

/// Why an answer of the provider could not be used.
#[derive(Debug, Clone, Copy, PartialEq, Eq, Structural)]
pub enum ProxysellerError {
    /// The provider did not mark its answer as good.
    StatusNotSuccess,
}

/// One rented proxy as the provider lists it.
#[derive(Debug, Clone)]
pub struct ProxysellerProxy {
    pub ip: String,
    pub port_http: i32,
    pub login: String,
    pub password: String,
}

/// The proxies of one order. The provider lists them either one after the other
/// or each under a key of its own.
#[derive(Debug, Clone)]
pub enum ProxysellerItems {
    Array(Vec<ProxysellerProxy>),
    Record(Vec<(String, ProxysellerProxy)>),
}

/// The credential that a listed proxy gives.
pub open spec fn listed_proxy(proxy: ProxysellerProxy) -> ProxyConfigView {
    ProxyConfigView {
        host: proxy.ip@,
        port: proxy.port_http as int,
        username: proxy.login@,
        password: proxy.password@,
    }
}

/// The credentials that the proxies of one order give, in the order listed.
pub open spec fn listed_proxies(items: ProxysellerItems) -> Seq<ProxyConfigView> {
    match items {
        ProxysellerItems::Array(proxies) => Seq::new(
            proxies.len() as nat,
            |i: int| listed_proxy(proxies[i]),
        ),
        ProxysellerItems::Record(proxies) => Seq::new(
            proxies.len() as nat,
            |i: int| listed_proxy(proxies[i].1),
        ),
    }
}

/// The credentials of all orders, order by order.
pub open spec fn all_listed_proxies(orders: Seq<ProxysellerItems>) -> Seq<ProxyConfigView>
    decreases orders.len(),
{
    if orders.len() == 0 {
        Seq::empty()
    } else {
        all_listed_proxies(orders.drop_last()) + listed_proxies(orders.last())
    }
}

/// The text under which the provider checks a proxy.
pub open spec fn proxy_string_view(proxy: ProxyConfigView) -> Seq<char> {
    proxy.username + ":"@ + proxy.password + "@"@ + proxy.host + ":"@ + decimal(proxy.port)
}

/// How many proxies an order lists.
fn listed_len(items: &ProxysellerItems) -> (len: usize)
    ensures
        len == listed_proxies(*items).len(),
{
    match items {
        ProxysellerItems::Array(proxies) => proxies.len(),
        ProxysellerItems::Record(proxies) => proxies.len(),
    }
}

/// The proxy that an order lists at place `i`.
fn listed_at(items: &ProxysellerItems, i: usize) -> (proxy: &ProxysellerProxy)
    requires
        i < listed_proxies(*items).len(),
    ensures
        listed_proxy(*proxy) == listed_proxies(*items)[i as int],
{
    match items {
        ProxysellerItems::Array(proxies) => &proxies[i],
        ProxysellerItems::Record(proxies) => &proxies[i].1,
    }
}

fn to_proxy_config(proxy: &ProxysellerProxy) -> (config: ProxyConfig)
    ensures
        config@ == listed_proxy(*proxy),
{
    ProxyConfig {
        host: proxy.ip.clone(),
        port: proxy.port_http,
        username: proxy.login.clone(),
        password: proxy.password.clone(),
    }
}

impl ProxysellerClient {
    /// The address that lists the proxies of `order`.
    pub fn proxy_list_url(&self, order: &ProxysellerOrder) -> (url: String)
        ensures
            url@ == PROXYSELLER_BASE_URL_API@ + "/"@ + self.api_key@ + "/proxy/list/"@ + order.0@,
    {
        let mut url = String::from_str(PROXYSELLER_BASE_URL_API);
        url.append("/");
        url.append(self.api_key.as_str());
        url.append("/proxy/list/");
        url.append(order.0.as_str());
        url
    }

    /// The address that checks a proxy.
    pub fn proxy_check_url(&self) -> (url: String)
        ensures
            url@ == PROXYSELLER_BASE_URL_API@ + "/"@ + self.api_key@ + "/tools/proxy/check"@,
    {
        let mut url = String::from_str(PROXYSELLER_BASE_URL_API);
        url.append("/");
        url.append(self.api_key.as_str());
        url.append("/tools/proxy/check");
        url
    }

    /// The text under which the provider checks `proxy_config`: the login, the
    /// host and the port.
    pub fn proxy_string(&self, proxy_config: &ProxyConfig) -> (text: String)
        ensures
            text@ == proxy_string_view(proxy_config@),
    {
        let mut text = String::from_str(proxy_config.username.as_str());
        text.append(":");
        text.append(proxy_config.password.as_str());
        text.append("@");
        text.append(proxy_config.host.as_str());
        text.append(":");
        let port = number_to_string(proxy_config.port as i64);
        text.append(port.as_str());
        text
    }

    /// The credentials that the provider listed, order by order, each list in the
    /// order given.
    pub fn fetch_proxies(&self, orders: &Vec<ProxysellerItems>) -> (proxy_configs: Vec<ProxyConfig>)
        ensures
            proxies_view(proxy_configs@) == all_listed_proxies(orders@),
    {
        let mut proxy_configs: Vec<ProxyConfig> = Vec::new();
        let mut o: usize = 0;
        assert(orders@.take(0) =~= Seq::empty());
        assert(proxies_view(proxy_configs@) =~= Seq::empty());
        while o < orders.len()
            invariant
                o <= orders.len(),
                proxies_view(proxy_configs@) == all_listed_proxies(orders@.take(o as int)),
            decreases orders.len() - o,
        {
            let ghost before = proxies_view(proxy_configs@);
            let ghost listed = listed_proxies(orders[o as int]);
            proof {
                assert(orders@.take(o + 1).drop_last() =~= orders@.take(o as int));
                assert(orders@.take(o + 1).last() == orders[o as int]);
                assert(before + listed.take(0) =~= before);
            }
            let count = listed_len(&orders[o]);
            let mut i: usize = 0;
            while i < count
                invariant
                    i <= count == listed.len(),
                    o < orders.len(),
                    listed == listed_proxies(orders[o as int]),
                    proxies_view(proxy_configs@) == before + listed.take(i as int),
                decreases count - i,
            {
                let ghost so_far = proxies_view(proxy_configs@);
                proxy_configs.push(to_proxy_config(listed_at(&orders[o], i)));
                proof {
                    assert(proxies_view(proxy_configs@) =~= so_far.push(listed[i as int]));
                    assert(listed.take(i + 1) =~= listed.take(i as int).push(listed[i as int]));
                    assert(so_far.push(listed[i as int]) =~= before + listed.take(i + 1));
                }
                i = i + 1;
            }
            assert(listed.take(count as int) =~= listed);
            o = o + 1;
        }
        assert(orders@.take(orders.len() as int) =~= orders@);
        proxy_configs
    }

    /// Judges the provider's answer to a check: the answer has to be marked as
    /// good; the proxy then passes where the provider found it valid and faster
    /// than this client's ceiling.
    pub fn check_proxy(&self, status: &str, valid: bool, time: i32) -> (passes: Result<
        bool,
        ProxysellerError,
    >)
        ensures
            status@ != PROXYSELLER_STATUS_SUCCESS@ ==> passes == Err::<bool, ProxysellerError>(
                ProxysellerError::StatusNotSuccess,
            ),
            status@ == PROXYSELLER_STATUS_SUCCESS@ ==> passes == Ok::<bool, ProxysellerError>(
                valid && time < self.timeout_ms,
            ),
    {
        if !str_equal(status, PROXYSELLER_STATUS_SUCCESS) {
            return Err(ProxysellerError::StatusNotSuccess);
        }
        Ok(valid && time < self.timeout_ms)
    }
}

} // verus!
