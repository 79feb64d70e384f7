//! The domain types that every layer shares.

pub mod arrangement;
pub mod cluster;
pub mod consistency;
pub mod document;
pub mod error;
pub mod mapping;
pub mod query;
pub mod ranking;
