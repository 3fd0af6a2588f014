//! Handlers of the first API version.

pub mod chain;
