//! Registering endpoints under a group.

use vstd::prelude::*;
use crate::models::{NewRpc, RpcVisibility};
use crate::util::{concat3, str_equal};
use crate::util::controllers::{ResponseError, STATUS_BAD_REQUEST};

verus! {

/// The scheme an endpoint has to be reached over.
pub const RPC_SCHEME: &'static str = "https";

/// An endpoint to register under a group.
#[derive(Clone, Debug)]
pub struct AddGroupRpcRequest {
    pub chain_id: String,
    pub url: String,
}

#[verifier::external_type_specification]
#[verifier::external_body]
pub struct ExParseError(url::ParseError);

/// The scheme of the absolute URL that `text` is, or `None` where `text` is no
/// absolute URL.
pub uninterp spec fn url_scheme(text: Seq<char>) -> Option<Seq<char>>;

/// `url::Url::parse` and `Url::scheme`: reads `text` as an absolute URL and gives
/// its scheme, or the error where `text` is none.
#[verifier::external_body]
fn parse_scheme(text: &str) -> (scheme: Result<String, url::ParseError>)
    ensures
        match scheme {
            Ok(scheme) => url_scheme(text@) == Some(scheme@),
            Err(_) => url_scheme(text@) is None,
        },
{
    match url::Url::parse(text) {
        Ok(url) => Ok(url.scheme().to_owned()),
        Err(error) => Err(error),
    }
}

/// `url::ParseError` as it is printed.
#[verifier::external_body]
fn parse_error_text(error: &url::ParseError) -> String {
    format!("{error}")
}

/// The message for a URL of another scheme.
pub open spec fn unsupported_scheme_message() -> Seq<char> {
    "Unsupported schema url"@
}

/// The message for a text that is no URL.
pub open spec fn bad_url_message(cause: Seq<char>) -> Seq<char> {
    "Bad format of url: "@ + cause + ""@
}

/// Lets an endpoint pass only where its URL is an absolute URL of the scheme
/// `https`.
pub fn check_rpc_url(url: &str) -> (checked: Result<(), ResponseError>)
    ensures
        checked is Ok <==> url_scheme(url@) == Some(RPC_SCHEME@),
        checked is Err ==> checked->Err_0.status == STATUS_BAD_REQUEST,
        checked is Err && url_scheme(url@) is Some ==> checked->Err_0.error@
            == unsupported_scheme_message(),
        checked is Err && url_scheme(url@) is None ==> exists|cause: Seq<char>|
            checked->Err_0.error@ == bad_url_message(cause),
{
    match parse_scheme(url) {
        Ok(scheme) => {
            if str_equal(scheme.as_str(), RPC_SCHEME) {
                Ok(())
            } else {
                Err(
                    ResponseError {
                        error: String::from_str("Unsupported schema url"),
                        status: STATUS_BAD_REQUEST,
                    },
                )
            }
        },
        Err(error) => {
            let cause = parse_error_text(&error);
            let response = ResponseError {
                error: concat3("Bad format of url: ", cause.as_str(), ""),
                status: STATUS_BAD_REQUEST,
            };
            assert(response.error@ == bad_url_message(cause@));
            Err(response)
        },
    }
}

/// The endpoint that a request registers: private to its group, once its URL has
/// passed.
pub fn post_group_rpc(new_rpc: AddGroupRpcRequest) -> (rpc: Result<NewRpc, ResponseError>)
    ensures
        rpc is Ok <==> url_scheme(new_rpc.url@) == Some(RPC_SCHEME@),
        rpc is Ok ==> rpc->Ok_0.chain_id == new_rpc.chain_id && rpc->Ok_0.url == new_rpc.url
            && rpc->Ok_0.visibility == RpcVisibility::Private,
        rpc is Err ==> rpc->Err_0.status == STATUS_BAD_REQUEST,
{
    match check_rpc_url(new_rpc.url.as_str()) {
        Ok(()) => Ok(
            NewRpc {
                chain_id: new_rpc.chain_id,
                url: new_rpc.url,
                visibility: RpcVisibility::Private,
            },
        ),
        Err(error) => Err(error),
    }
}

} // verus!
