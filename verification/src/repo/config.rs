//! The gateway's settings, read once when it starts.

use vstd::prelude::*;
use crate::services::evm_rpc::urls_view;
use crate::util::text::{chars_of, parse_integer, parse_number, pieces_of, split_chars, string_of};

verus! {

/// The settings as they were given, each as text.
#[derive(Debug, Clone)]
pub struct ConfigVars {
    pub port: String,
    pub proxyseller_api_key: String,
    pub supported_chain_ids: String,
    pub feed_max_timeout_ms: String,
    pub frontend_url_sign_in: String,
    pub frontend_url_profile: String,
    pub secret_key: String,
    pub database_url: String,
    pub google_client_id: String,
    pub google_client_secret: String,
    pub google_redirect_uri: String,
}

/// The settings.
#[derive(Debug, Clone)]
pub struct ConfigRepo {
    pub port: i32,
    pub proxyseller_api_key: String,
    pub supported_chain_ids: Vec<String>,
    /// The base timeout of probes and of routed calls, in milliseconds.
    pub feed_max_timeout_ms: u32,
    pub secret_key: String,
    pub frontend_url_sign_in: String,
    pub frontend_url_profile: String,
    pub database_url: String,
    pub rocket_oauth: String,
}

/// A setting that is not what it has to be.
#[derive(Debug, Clone, Copy, PartialEq, Eq, Structural)]
pub enum ConfigError {
    /// The port is no 32-bit number.
    Port,
    /// The timeout is no unsigned 32-bit number.
    FeedMaxTimeout,
}

/// The settings of the sign-in provider, as the web framework reads them.
pub open spec fn rocket_oauth_view(
    google_client_id: Seq<char>,
    google_client_secret: Seq<char>,
    google_redirect_uri: Seq<char>,
) -> Seq<char> {
    "\n            {\n                google =  {\n                    provider = \"Google\",\n                    client_id = \""@
        + google_client_id + "\",\n                    client_secret = \""@
        + google_client_secret + "\",\n                    redirect_uri = \""@
        + google_redirect_uri + "\"\n                }\n            }"@
}

/// The port that `text` names.
pub fn parse_port(text: &str) -> (port: Result<i32, ConfigError>)
    ensures
        match port {
            Ok(port) => parse_integer(text@, 10, i32::MIN as int, i32::MAX as int) == Some(
                port as int,
            ),
            Err(error) => error == ConfigError::Port && parse_integer(
                text@,
                10,
                i32::MIN as int,
                i32::MAX as int,
            ) is None,
        },
{
    let chars = chars_of(text);
    assert(chars@.skip(0) =~= text@);
    match parse_number(&chars, 0, 10, i32::MIN as i64, i32::MAX as i64) {
        Some(port) => Ok(port as i32),
        None => Err(ConfigError::Port),
    }
}

/// The timeout in milliseconds that `text` names.
pub fn parse_feed_max_timeout(text: &str) -> (timeout_ms: Result<u32, ConfigError>)
    ensures
        match timeout_ms {
            Ok(timeout_ms) => parse_integer(text@, 10, 0, u32::MAX as int) == Some(
                timeout_ms as int,
            ),
            Err(error) => error == ConfigError::FeedMaxTimeout && parse_integer(
                text@,
                10,
                0,
                u32::MAX as int,
            ) is None,
        },
{
    let chars = chars_of(text);
    assert(chars@.skip(0) =~= text@);
    match parse_number(&chars, 0, 10, 0, u32::MAX as i64) {
        Some(timeout_ms) => Ok(timeout_ms as u32),
        None => Err(ConfigError::FeedMaxTimeout),
    }
}

/// The chain ids that `text` lists, separated by commas.
pub fn parse_supported_chain_ids(text: &str) -> (chain_ids: Vec<String>)
    ensures
        urls_view(chain_ids@) == pieces_of(text@, ','),
{
    let chars = chars_of(text);
    let pieces = split_chars(&chars, ',');
    let mut chain_ids: Vec<String> = Vec::new();
    let mut i: usize = 0;
    while i < pieces.len()
        invariant
            i <= pieces.len(),
            chain_ids.len() == i,
            forall|k: int| 0 <= k < i ==> (#[trigger] chain_ids[k])@ == pieces[k]@,
        decreases pieces.len() - i,
    {
        let chain_id = string_of(&pieces[i], 0, pieces[i].len());
        assert(pieces[i as int]@.subrange(0, pieces[i as int].len() as int) =~= pieces[i as int]@);
        chain_ids.push(chain_id);
        i = i + 1;
    }
    assert(urls_view(chain_ids@) =~= pieces_of(text@, ','));
    chain_ids
}

/// The settings of the sign-in provider, as the web framework reads them.
pub fn rocket_oauth(google_client_id: &str, google_client_secret: &str, google_redirect_uri: &str) -> (text:
    String)
    ensures
        text@ == rocket_oauth_view(google_client_id@, google_client_secret@, google_redirect_uri@),
{
    let mut text = String::from_str(
        "\n            {\n                google =  {\n                    provider = \"Google\",\n                    client_id = \"",
    );
    text.append(google_client_id);
    text.append("\",\n                    client_secret = \"");
    text.append(google_client_secret);
    text.append("\",\n                    redirect_uri = \"");
    text.append(google_redirect_uri);
    text.append("\"\n                }\n            }");
    text
}

impl ConfigRepo {
    /// Reads the settings. The port has to be a 32-bit number and the timeout an
    /// unsigned one, both in decimal; where both are wrong the port is reported.
    pub fn new(vars: ConfigVars) -> (config: Result<Self, ConfigError>)
        ensures
            match config {
                Ok(config) => {
                    &&& parse_integer(vars.port@, 10, i32::MIN as int, i32::MAX as int) == Some(
                        config.port as int,
                    )
                    &&& parse_integer(vars.feed_max_timeout_ms@, 10, 0, u32::MAX as int) == Some(
                        config.feed_max_timeout_ms as int,
                    )
                    &&& urls_view(config.supported_chain_ids@) == pieces_of(
                        vars.supported_chain_ids@,
                        ',',
                    )
                    &&& config.proxyseller_api_key == vars.proxyseller_api_key
                    &&& config.secret_key == vars.secret_key
                    &&& config.frontend_url_sign_in == vars.frontend_url_sign_in
                    &&& config.frontend_url_profile == vars.frontend_url_profile
                    &&& config.database_url == vars.database_url
                    &&& config.rocket_oauth@ == rocket_oauth_view(
                        vars.google_client_id@,
                        vars.google_client_secret@,
                        vars.google_redirect_uri@,
                    )
                },
                Err(ConfigError::Port) => parse_integer(
                    vars.port@,
                    10,
                    i32::MIN as int,
                    i32::MAX as int,
                ) is None,
                Err(ConfigError::FeedMaxTimeout) => parse_integer(
                    vars.port@,
                    10,
                    i32::MIN as int,
                    i32::MAX as int,
                ) is Some && parse_integer(vars.feed_max_timeout_ms@, 10, 0, u32::MAX as int)
                    is None,
            },
    {
        let port = match parse_port(vars.port.as_str()) {
            Ok(port) => port,
            Err(error) => {
                return Err(error);
            },
        };
        let supported_chain_ids = parse_supported_chain_ids(vars.supported_chain_ids.as_str());
        let feed_max_timeout_ms = match parse_feed_max_timeout(vars.feed_max_timeout_ms.as_str()) {
            Ok(timeout_ms) => timeout_ms,
            Err(error) => {
                return Err(error);
            },
        };
        let rocket_oauth = rocket_oauth(
            vars.google_client_id.as_str(),
            vars.google_client_secret.as_str(),
            vars.google_redirect_uri.as_str(),
        );
        Ok(
            Self {
                port,
                proxyseller_api_key: vars.proxyseller_api_key,
                supported_chain_ids,
                frontend_url_sign_in: vars.frontend_url_sign_in,
                frontend_url_profile: vars.frontend_url_profile,
                secret_key: vars.secret_key,
                database_url: vars.database_url,
                feed_max_timeout_ms,
                rocket_oauth,
            },
        )
    }
}

} // verus!
