//! Plain data carried between the gateway's components.

use vstd::prelude::*;

pub mod monitoring;
pub mod proxy;

verus! {

/// A blockchain network the gateway serves.
#[derive(Clone, Debug)]
pub struct Chain {
    pub id: String,
    pub name: String,
}

/// Who may route through an endpoint.
#[derive(Debug, Clone, Copy, PartialEq, Eq, Structural)]
pub enum RpcVisibility {
    Public,
    Private,
}

/// A registered endpoint: a URL and the chain it claims to serve.
#[derive(Clone, Debug)]
pub struct Rpc {
    pub id: i32,
    pub chain_id: String,
    pub url: String,
    pub visibility: RpcVisibility,
}

/// An endpoint about to be registered.
#[derive(Clone, Debug)]
pub struct NewRpc {
    pub chain_id: String,
    pub url: String,
    pub visibility: RpcVisibility,
}

} // verus!
