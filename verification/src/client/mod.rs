//! Clients of the services the gateway draws on.

pub mod chainlist;
pub mod proxyseller;
