//! The messages that nodes exchange.
//!
//! Commands, queries, documents and consensus messages travel as bytes.

use vstd::prelude::*;

verus! {

#[derive(Debug)]
pub struct AppendEntriesRequest {
    pub payload: Vec<u8>,
}

#[derive(Debug)]
pub struct AppendEntriesResponse {
    pub payload: Vec<u8>,
}

#[derive(Debug)]
pub struct VoteRequest {
    pub payload: Vec<u8>,
}

#[derive(Debug)]
pub struct VoteResponse {
    pub payload: Vec<u8>,
}

/// A piece of a snapshot.
#[derive(Debug)]
pub struct SnapshotChunk {
    pub offset: u64,
    pub data: Vec<u8>,
    /// Whether this is the last piece.
    pub done: bool,
    /// What the snapshot is, in the piece that tells it; else empty.
    pub metadata: Vec<u8>,
}

#[derive(Debug)]
pub struct InstallSnapshotResponse {
    pub payload: Vec<u8>,
}

#[derive(Debug)]
pub struct WriteRequest {
    pub command: Vec<u8>,
}

#[derive(Debug)]
pub struct WriteResponse {
    pub success: bool,
    /// The id of the written document, or empty.
    pub document_id: String,
    /// What went wrong, or empty.
    pub error: String,
}

#[derive(Clone, Copy, Debug)]
pub struct HealthRequest {}

#[derive(Debug)]
pub struct HealthResponse {
    pub node_id: u64,
    pub status: String,
    /// The id of the leader, or zero.
    pub leader_id: u64,
    pub current_term: u64,
    pub last_applied: u64,
    pub is_healthy: bool,
}

#[derive(Debug)]
pub struct JoinRequest {
    pub node_id: u64,
    pub address: String,
}

#[derive(Debug)]
pub struct JoinResponse {
    pub success: bool,
    pub error: String,
    pub leader_id: u64,
}

#[derive(Debug)]
pub struct SearchRequest {
    pub query: Vec<u8>,
    pub limit: u32,
}

#[derive(Debug)]
pub struct SearchResponse {
    pub result: Vec<u8>,
    pub error: String,
}

#[derive(Debug)]
pub struct GetRequest {
    pub document_id: String,
}

#[derive(Debug)]
pub struct GetResponse {
    pub document: Vec<u8>,
    pub found: bool,
    pub error: String,
}

#[derive(Debug)]
pub struct ScatterRequest {
    pub query: Vec<u8>,
    pub limit: u32,
}

#[derive(Debug)]
pub struct ScatterResult {
    pub scored_document: Vec<u8>,
    pub node_id: u64,
}

} // verus!
