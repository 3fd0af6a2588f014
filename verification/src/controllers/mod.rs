//! What the gateway's request handlers decide.

pub mod v1;
pub mod v2;
