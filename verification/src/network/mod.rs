//! Communication between the nodes of a cluster.

pub mod client;
pub mod connection_pool;
pub mod proto;
pub mod raft_network;
pub mod scatter_gather;
pub mod server;
pub mod tls;
