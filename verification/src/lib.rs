//! Core of a fault-tolerant JSON-RPC gateway: endpoint health checks and
//! ranking, request routing with retry and timeout escalation, and rotation
//! of outbound proxies.
//!
//! The library decides and computes; it sends nothing. The program around it
//! makes the calls to endpoints, to the proxy provider and to storage, and hands
//! what came back to the functions here.

pub mod client;
pub mod controllers;
pub mod crons;
pub mod middleware;
pub mod models;
pub mod repo;
pub mod services;
pub mod util;
