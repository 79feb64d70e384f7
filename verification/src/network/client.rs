//! The client side of the exchange between nodes.

use vstd::arithmetic::power2::{lemma_pow2_strictly_increases, lemma_pow2_unfold, pow2};
use vstd::prelude::*;

use crate::clock::Span;
use crate::model::cluster::NodeAddress;
use crate::model::error::DbError;
use crate::network::proto::{
    GetResponse, HealthResponse, JoinResponse, SearchResponse, WriteResponse,
};
use crate::text;

verus! {

/// The health of a remote node.
#[derive(Debug)]
pub struct HealthStatus {
    pub node_id: u64,
    /// `"Leader"`, `"Follower"`, `"Candidate"` or `"Offline"`.
    pub status: String,
    /// The id of the leader, or zero.
    pub leader_id: u64,
    pub current_term: u64,
    pub last_applied: u64,
    pub is_healthy: bool,
}

// ---------------------------------------------------------------------------
// Connecting
// ---------------------------------------------------------------------------

/// The pause behind the first failed attempt, in milliseconds.
pub const INITIAL_BACKOFF_MS: u64 = 100;

/// The number of attempts to connect.
pub const MAX_RETRIES: u32 = 5;

/// The seconds that an attempt to connect may take.
pub const CONNECT_TIMEOUT_SECS: u64 = 5;

/// The seconds that a call may take.
pub const CALL_TIMEOUT_SECS: u64 = 10;

/// The greatest attempt whose pause is a whole number of milliseconds in sixty-four
/// bits.
pub const MAX_ATTEMPT: u32 = 57;

/// The pause behind a failed attempt; the first attempt is number zero, and every
/// pause is twice the one before it.
pub fn backoff_duration(attempt: u32) -> (pause: Span)
    requires
        attempt <= MAX_ATTEMPT,
    ensures
        pause.nanos == INITIAL_BACKOFF_MS * pow2(attempt as nat) * 1_000_000,
{
    let mut factor: u64 = 1;
    let mut i: u32 = 0;
    proof {
        vstd::arithmetic::power2::lemma2_to64();
        vstd::arithmetic::power2::lemma2_to64_rest();
    }
    while i < attempt
        invariant
            i <= attempt <= MAX_ATTEMPT,
            factor == pow2(i as nat),
            factor <= 0x200_0000_0000_0000,
            pow2(57) == 0x200_0000_0000_0000,
        decreases attempt - i,
    {
        proof {
            lemma_pow2_unfold((i + 1) as nat);
            if i + 1 < 57 {
                lemma_pow2_strictly_increases((i + 1) as nat, 57);
            }
        }
        factor = factor * 2;
        i = i + 1;
    }
    Span::from_millis(INITIAL_BACKOFF_MS * factor)
}

/// The endpoint of an address.
pub fn endpoint_of(addr: &NodeAddress) -> (e: String)
    ensures
        e@ == "http://"@ + addr.spelled(),
{
    text::concat2("http://", addr.display().as_str())
}

/// What to do behind a failed attempt to connect.
#[derive(Debug)]
pub enum RetryStep {
    /// Pause, and try once more.
    Retry(Span),
    /// Pause, and give up.
    GiveUp(Span, DbError),
}

/// The error of a connection that failed for good.
pub open spec fn connect_error(endpoint: Seq<char>, last: Seq<char>) -> Seq<char> {
    "failed to connect to "@ + endpoint + " after "@ + text::decimal(MAX_RETRIES as nat)
        + " retries: "@ + last
}

/// The attempt with the given number, counted from zero, has failed.
pub fn after_failed_attempt(endpoint: &str, attempt: u32, error: &str) -> (step: RetryStep)
    requires
        attempt < MAX_RETRIES,
    ensures
        match step {
            RetryStep::Retry(pause) => {
                &&& attempt + 1 < MAX_RETRIES
                &&& pause.nanos == INITIAL_BACKOFF_MS * pow2(attempt as nat) * 1_000_000
            },
            RetryStep::GiveUp(pause, e) => {
                &&& attempt + 1 == MAX_RETRIES
                &&& pause.nanos == INITIAL_BACKOFF_MS * pow2(attempt as nat) * 1_000_000
                &&& e matches DbError::NetworkError(m)
                &&& m@ == connect_error(endpoint@, error@)
            },
        },
{
    let pause = backoff_duration(attempt);
    if attempt + 1 < MAX_RETRIES {
        return RetryStep::Retry(pause);
    }
    let mut m = text::concat3("failed to connect to ", endpoint, " after ");
    m.append(text::decimal_of(MAX_RETRIES as u64).as_str());
    m.append(" retries: ");
    m.append(error);
    RetryStep::GiveUp(pause, DbError::NetworkError(m))
}

/// The error of an endpoint that cannot be read.
pub fn invalid_endpoint(error: &str) -> (e: DbError)
    ensures
        e matches DbError::NetworkError(m) && m@ == "invalid endpoint: "@ + error@,
{
    DbError::NetworkError(text::concat2("invalid endpoint: ", error))
}

/// The calls between nodes.
#[derive(Clone, Copy, Debug, PartialEq, Eq, Structural)]
pub enum Rpc {
    AppendEntries,
    RequestVote,
    ForwardWrite,
    Search,
    Get,
    HealthCheck,
    JoinCluster,
}

impl Rpc {
    pub open spec fn spelled(self) -> Seq<char> {
        match self {
            Rpc::AppendEntries => "append_entries"@,
            Rpc::RequestVote => "request_vote"@,
            Rpc::ForwardWrite => "forward_write"@,
            Rpc::Search => "search"@,
            Rpc::Get => "get"@,
            Rpc::HealthCheck => "health_check"@,
            Rpc::JoinCluster => "join_cluster"@,
        }
    }

    /// The name of the call.
    pub fn name(&self) -> (s: String)
        ensures
            s@ == self.spelled(),
    {
        match self {
            Rpc::AppendEntries => "append_entries".to_owned(),
            Rpc::RequestVote => "request_vote".to_owned(),
            Rpc::ForwardWrite => "forward_write".to_owned(),
            Rpc::Search => "search".to_owned(),
            Rpc::Get => "get".to_owned(),
            Rpc::HealthCheck => "health_check".to_owned(),
            Rpc::JoinCluster => "join_cluster".to_owned(),
        }
    }
}

/// The error of a call that did not get through.
pub fn rpc_failed(rpc: Rpc, error: &str) -> (e: DbError)
    ensures
        e matches DbError::NetworkError(m) && m@ == rpc.spelled() + " RPC failed: "@ + error@,
{
    DbError::NetworkError(text::concat3(rpc.name().as_str(), " RPC failed: ", error))
}

// ---------------------------------------------------------------------------
// Replies
// ---------------------------------------------------------------------------

/// The outcome of a proposal.
#[derive(Debug)]
pub struct RaftResponse {
    pub success: bool,
    pub document_id: Option<String>,
}

/// What a remote node says of a forwarded write.
pub fn read_write_response(inner: WriteResponse) -> (r: Result<RaftResponse, DbError>)
    ensures
        if inner.success {
            &&& r matches Ok(resp)
            &&& resp.success
            &&& match resp.document_id {
                Some(id) => inner.document_id@.len() > 0 && id@ == inner.document_id@,
                None => inner.document_id@.len() == 0,
            }
        } else {
            r matches Err(DbError::NetworkError(m)) && m@ == "forward_write rejected: "@
                + inner.error@
        },
{
    if inner.success {
        let document_id = if inner.document_id.as_str().is_empty() {
            None
        } else {
            Some(inner.document_id)
        };
        Ok(RaftResponse { success: true, document_id })
    } else {
        Err(
            DbError::NetworkError(
                text::concat2("forward_write rejected: ", inner.error.as_str()),
            ),
        )
    }
}

/// What a remote node found: the bytes of its result.
pub fn read_search_response(inner: SearchResponse) -> (r: Result<Vec<u8>, DbError>)
    ensures
        if inner.error@.len() > 0 {
            r matches Err(DbError::NetworkError(m)) && m@ == "remote search error: "@
                + inner.error@
        } else {
            r == Ok::<Vec<u8>, DbError>(inner.result)
        },
{
    if !inner.error.as_str().is_empty() {
        return Err(
            DbError::NetworkError(text::concat2("remote search error: ", inner.error.as_str())),
        );
    }
    Ok(inner.result)
}

/// What a remote node holds of a document: its bytes, where it is there.
pub fn read_get_response(inner: GetResponse) -> (r: Result<Option<Vec<u8>>, DbError>)
    ensures
        if inner.error@.len() > 0 {
            r matches Err(DbError::NetworkError(m)) && m@ == "remote get error: "@ + inner.error@
        } else if !inner.found {
            r == Ok::<Option<Vec<u8>>, DbError>(None)
        } else {
            r == Ok::<Option<Vec<u8>>, DbError>(Some(inner.document))
        },
{
    if !inner.error.as_str().is_empty() {
        return Err(
            DbError::NetworkError(text::concat2("remote get error: ", inner.error.as_str())),
        );
    }
    if !inner.found {
        return Ok(None);
    }
    Ok(Some(inner.document))
}

/// What a remote node says of its health.
pub fn read_health_response(inner: HealthResponse) -> (h: HealthStatus)
    ensures
        h == (HealthStatus {
            node_id: inner.node_id,
            status: inner.status,
            leader_id: inner.leader_id,
            current_term: inner.current_term,
            last_applied: inner.last_applied,
            is_healthy: inner.is_healthy,
        }),
{
    HealthStatus {
        node_id: inner.node_id,
        status: inner.status,
        leader_id: inner.leader_id,
        current_term: inner.current_term,
        last_applied: inner.last_applied,
        is_healthy: inner.is_healthy,
    }
}

/// What a remote node says of this node's wish to join.
pub fn read_join_response(inner: &JoinResponse) -> (r: Result<(), DbError>)
    ensures
        if inner.success {
            r is Ok
        } else {
            r matches Err(DbError::NetworkError(m)) && m@ == "join_cluster rejected: "@
                + inner.error@
        },
{
    if inner.success {
        Ok(())
    } else {
        Err(
            DbError::NetworkError(text::concat2("join_cluster rejected: ", inner.error.as_str())),
        )
    }
}

// ---------------------------------------------------------------------------
// Laws
// ---------------------------------------------------------------------------

/// Every pause is twice the one before it.
pub proof fn backoff_doubles(attempt: nat)
    ensures
        INITIAL_BACKOFF_MS * pow2(attempt + 1) == 2 * (INITIAL_BACKOFF_MS * pow2(attempt)),
{
    lemma_pow2_unfold(attempt + 1);
    assert(100 * (2 * pow2(attempt)) == 2 * (100 * pow2(attempt))) by (nonlinear_arith);
}

/// Every call has a name of its own.
pub proof fn calls_have_their_names(a: Rpc, b: Rpc)
    ensures
        Rpc::AppendEntries.spelled() == "append_entries"@,
        Rpc::RequestVote.spelled() == "request_vote"@,
        Rpc::ForwardWrite.spelled() == "forward_write"@,
        Rpc::Search.spelled() == "search"@,
        Rpc::Get.spelled() == "get"@,
        Rpc::HealthCheck.spelled() == "health_check"@,
        Rpc::JoinCluster.spelled() == "join_cluster"@,
        a != b ==> a.spelled() != b.spelled(),
{
    reveal_strlit("append_entries");
    reveal_strlit("request_vote");
    reveal_strlit("forward_write");
    reveal_strlit("search");
    reveal_strlit("get");
    reveal_strlit("health_check");
    reveal_strlit("join_cluster");
    assert("append_entries"@[0] == 'a' && "request_vote"@[0] == 'r' && "forward_write"@[0] == 'f'
        && "search"@[0] == 's' && "get"@[0] == 'g' && "health_check"@[0] == 'h'
        && "join_cluster"@[0] == 'j');
}

/// An error of a connection that failed for good names the endpoint, the five attempts and
/// the last cause.
pub proof fn failed_connections_are_told(endpoint: Seq<char>, last: Seq<char>)
    ensures
        connect_error(endpoint, last) == "failed to connect to "@ + endpoint + " after "@ + seq![
            '5',
        ] + " retries: "@ + last,
        text::occurs(connect_error(endpoint, last), endpoint),
        text::finishes_with(connect_error(endpoint, last), last),
{
    let all = connect_error(endpoint, last);
    assert(text::decimal(5) =~= seq!['5']);
    let at = "failed to connect to "@.len() as int;
    assert(all.subrange(at, at + endpoint.len()) =~= endpoint);
    assert(text::occurs_at(all, endpoint, at));
    assert(all.subrange(all.len() - last.len(), all.len() as int) =~= last);
}

/// The first pause takes a tenth of a second, and there are five attempts; connecting may
/// take five seconds and a call ten.
pub proof fn attempts_have_their_time()
    ensures
        INITIAL_BACKOFF_MS == 100,
        MAX_RETRIES == 5,
        CONNECT_TIMEOUT_SECS == 5,
        CALL_TIMEOUT_SECS == 10,
        MAX_ATTEMPT == 57,
{
}

} // verus!
