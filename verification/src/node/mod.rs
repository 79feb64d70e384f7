//! The REST node: what it is asked, what it decides and what it answers.

pub mod admin_tui;
pub mod aliases;
pub mod bulk;
pub mod cache;
pub mod cluster;
pub mod cluster_manager;
pub mod collections;
pub mod documents;
pub mod dto;
pub mod errors;
pub mod gossip;
pub mod metric_ids;
pub mod metrics;
pub mod middleware;
pub mod observability;
pub mod search;
pub mod session;
pub mod snapshot;
pub mod state;
