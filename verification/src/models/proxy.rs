//! Credentials of one outbound proxy.

use vstd::prelude::*;
use crate::util::{decimal, number_to_string};

verus! {

/// Where an outbound proxy listens and how to log in to it.
#[derive(Debug, Clone)]
pub struct ProxyConfig {
    pub host: String,
    pub port: i32,
    pub username: String,
    pub password: String,
}

/// A `ProxyConfig` with its texts as character sequences.
pub struct ProxyConfigView {
    pub host: Seq<char>,
    pub port: int,
    pub username: Seq<char>,
    pub password: Seq<char>,
}

impl View for ProxyConfig {
    type V = ProxyConfigView;

    open spec fn view(&self) -> ProxyConfigView {
        ProxyConfigView {
            host: self.host@,
            port: self.port as int,
            username: self.username@,
            password: self.password@,
        }
    }
}

/// A list of credentials, each by its view.
pub open spec fn proxies_view(proxies: Seq<ProxyConfig>) -> Seq<ProxyConfigView> {
    Seq::new(proxies.len(), |i: int| proxies[i]@)
}

#[verifier::external_type_specification]
#[verifier::external_body]
pub struct ExProxy(reqwest::Proxy);

#[verifier::external_type_specification]
#[verifier::external_body]
pub struct ExReqwestError(reqwest::Error);

/// Whether `reqwest::Proxy::http` takes `url` for the address of a proxy.
pub uninterp spec fn http_proxy_accepts(url: Seq<char>) -> bool;

/// `reqwest::Proxy::http`: a proxy for all HTTP traffic at `url`, or an error
/// where `url` is not the address of a proxy.
#[verifier::external_body]
fn http_proxy(url: &str) -> (proxy: Result<reqwest::Proxy, reqwest::Error>)
    ensures
        proxy is Ok <==> http_proxy_accepts(url@),
{
    reqwest::Proxy::http(url)
}

/// `reqwest::Proxy::basic_auth`: the proxy, logging in with `username` and
/// `password`.
#[verifier::external_body]
fn with_basic_auth(proxy: reqwest::Proxy, username: &str, password: &str) -> reqwest::Proxy {
    proxy.basic_auth(username, password)
}

/// `reqwest::Error` as it is printed.
#[verifier::external_body]
pub(crate) fn reqwest_error_text(error: &reqwest::Error) -> String {
    format!("{error}")
}

/// A credential that is no address of a proxy.
#[derive(Debug)]
pub struct InvalidProxy {
    pub reason: String,
}

/// The address of the proxy of a credential.
pub open spec fn proxy_url_view(proxy: ProxyConfigView) -> Seq<char> {
    "http://"@ + proxy.host + ":"@ + decimal(proxy.port)
}

impl ProxyConfig {
    /// The address of the proxy.
    pub fn proxy_url(&self) -> (url: String)
        ensures
            url@ == proxy_url_view(self@),
    {
        let mut url = String::from_str("http://");
        url.append(self.host.as_str());
        url.append(":");
        let port = number_to_string(self.port as i64);
        url.append(port.as_str());
        url
    }

    /// The proxy as the HTTP client takes it, logging in with the credential's
    /// user name and password. It fails where the host and the port give no
    /// address that the HTTP client accepts.
    pub fn to_proxy(&self) -> (proxy: Result<reqwest::Proxy, InvalidProxy>)
        ensures
            proxy is Ok <==> http_proxy_accepts(proxy_url_view(self@)),
    {
        let url = self.proxy_url();
        match http_proxy(url.as_str()) {
            Ok(proxy) => Ok(
                with_basic_auth(proxy, self.username.as_str(), self.password.as_str()),
            ),
            Err(error) => Err(InvalidProxy { reason: reqwest_error_text(&error) }),
        }
    }
}

} // verus!
