//! The gateway's services: endpoint probing, proxy rotation, request counters.

pub mod evm_rpc;
pub mod group;
pub mod monitoring;
pub mod proxy;
