//! What the gateway keeps: its in-memory store and its configuration.

pub mod cache;
pub mod config;
