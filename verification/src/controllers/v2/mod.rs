//! Handlers of the second API version.

pub mod chain;
pub mod groups;
