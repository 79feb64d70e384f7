use std::collections::HashMap;
use std::time::{Duration, Instant};

use msearchdb::clock::Span;
use msearchdb::model::cluster::NodeAddress;
use msearchdb::model::document::{Document, FieldValue};
use msearchdb::model::error::DbError;
use msearchdb::model::query::{Score, ScoredDocument, SearchResult};
use msearchdb::network::client::{
    after_failed_attempt, backoff_duration, endpoint_of, invalid_endpoint, read_get_response,
    read_health_response, read_join_response, read_search_response, read_write_response,
    rpc_failed, HealthStatus, RaftResponse, RetryStep, Rpc,
};
use msearchdb::network::connection_pool::{
    CircuitBreaker, CircuitState, ConnectionPool, PoolConfig,
};
use msearchdb::network::proto;
use msearchdb::network::raft_network::{
    failure, single_chunk, Cause, GrpcNetworkFactory, Step,
};
use msearchdb::network::scatter_gather::{
    deduplicate_results, rank_results, scatter_search, Gather, NODE_TIMEOUT_MS,
};
use msearchdb::network::server::{
    answer_get, answer_health, answer_join, answer_search, answer_write, assemble, failed,
    joining_address, scatter_result, unreadable, unwritable, Code,
};
use msearchdb::table::Table;
use msearchdb::network::tls::{
    build_grpc_client_tls, build_grpc_server_tls, cannot_read,
    load_http_tls_config, PemFile, TlsConfig,
};

fn pause(span: Duration) {
    let start = Instant::now();
    while start.elapsed() < span {}
}

fn score(value: f32) -> Score {
    Score { bits: value.to_bits() }
}

fn value(score: &Score) -> f32 {
    f32::from_bits(score.bits)
}

fn make_scored(id: &str, value: f32) -> ScoredDocument {
    ScoredDocument {
        document: Document::new(id)
            .with_field("title", FieldValue::Text(format!("doc-{}", id))),
        score: score(value),
        sort: Vec::new(),
    }
}

// ---------------------------------------------------------------------------
// Clients
// ---------------------------------------------------------------------------

#[test]
fn backoff_duration_exponential() {
    assert_eq!(backoff_duration(0), Span::from_millis(100));
    assert_eq!(backoff_duration(1), Span::from_millis(200));
    assert_eq!(backoff_duration(2), Span::from_millis(400));
    assert_eq!(backoff_duration(3), Span::from_millis(800));
    assert_eq!(backoff_duration(4), Span::from_millis(1600));
}

#[test]
fn health_status_construction() {
    let hs = HealthStatus {
        node_id: 1,
        status: "Leader".into(),
        leader_id: 1,
        current_term: 3,
        last_applied: 10,
        is_healthy: true,
    };
    assert_eq!(hs.node_id, 1);
    assert!(hs.is_healthy);
}

#[test]
fn endpoints_name_host_and_port() {
    assert_eq!(endpoint_of(&NodeAddress::new("10.0.0.5", 9300)), "http://10.0.0.5:9300");
}

#[test]
fn connection_is_retried_and_given_up() {
    match after_failed_attempt("http://127.0.0.1:1", 0, "refused") {
        RetryStep::Retry(span) => assert_eq!(span, Span::from_millis(100)),
        other => panic!("expected another try, got {:?}", other),
    }
    match after_failed_attempt("http://127.0.0.1:1", 4, "refused") {
        RetryStep::GiveUp(span, DbError::NetworkError(msg)) => {
            assert_eq!(span, Span::from_millis(1600));
            assert_eq!(
                msg,
                "failed to connect to http://127.0.0.1:1 after 5 retries: refused"
            );
        }
        other => panic!("expected an error, got {:?}", other),
    }
}

#[test]
fn invalid_endpoints_are_network_errors() {
    match invalid_endpoint("no scheme") {
        DbError::NetworkError(m) => assert!(m.contains("no scheme")),
        other => panic!("got {:?}", other),
    }
    match rpc_failed(Rpc::ForwardWrite, "gone") {
        DbError::NetworkError(m) => assert!(m.contains("gone")),
        other => panic!("got {:?}", other),
    }
}

#[test]
fn answers_are_read_as_they_were_given() {
    let sent = answer_write(Ok(RaftResponse {
        success: true,
        document_id: Some("d1".to_owned()),
    }));
    let read = read_write_response(sent).unwrap();
    assert!(read.success);
    assert_eq!(read.document_id.as_deref(), Some("d1"));

    let refused = answer_write(Err(DbError::StorageError("disk full".to_owned())));
    assert!(!refused.success);
    assert_eq!(refused.error, "storage error: disk full");
    assert!(read_write_response(refused).is_err());

    let found = answer_get(Ok(vec![1, 2]));
    assert_eq!(read_get_response(found).unwrap(), Some(vec![1, 2]));
    let missing = answer_get(Err(DbError::NotFound("d2".to_owned())));
    assert!(!missing.found);
    assert_eq!(missing.error, "");
    assert_eq!(read_get_response(missing).unwrap(), None);
    let broken = answer_get(Err(DbError::StorageError("bad block".to_owned())));
    assert!(read_get_response(broken).is_err());

    let result = answer_search(Ok(vec![9]));
    assert_eq!(read_search_response(result).unwrap(), vec![9]);
    assert!(read_search_response(answer_search(Err(DbError::IndexError("x".to_owned())))).is_err());

    let health = read_health_response(answer_health(7, false, None, 3, Some(12)));
    assert_eq!(health.node_id, 7);
    assert_eq!(health.status, "Follower");
    assert_eq!(health.leader_id, 0);
    assert_eq!(health.current_term, 3);
    assert_eq!(health.last_applied, 12);
    assert!(health.is_healthy);
    assert_eq!(answer_health(1, true, Some(1), 1, None).status, "Leader");

    assert!(read_join_response(&answer_join(Ok(()), Some(1))).is_ok());
    let refused = answer_join(Err(DbError::ConsensusError("no".to_owned())), None);
    assert_eq!(refused.leader_id, 0);
    assert!(read_join_response(&refused).is_err());
}

// ---------------------------------------------------------------------------
// Circuit breakers
// ---------------------------------------------------------------------------

#[test]
fn circuit_breaker_starts_closed() {
    let mut cb = CircuitBreaker::default_breaker();
    assert_eq!(cb.state(), CircuitState::Closed);
    assert!(cb.allow_request());
    assert_eq!(cb.consecutive_failures(), 0);
}

#[test]
fn circuit_breaker_opens_after_threshold() {
    let mut cb = CircuitBreaker::new(3, Span::from_secs(30));

    cb.record_failure();
    assert_eq!(cb.state(), CircuitState::Closed);
    assert_eq!(cb.consecutive_failures(), 1);

    cb.record_failure();
    assert_eq!(cb.state(), CircuitState::Closed);
    assert_eq!(cb.consecutive_failures(), 2);

    cb.record_failure();
    assert_eq!(cb.state(), CircuitState::Open);
    assert_eq!(cb.consecutive_failures(), 3);
    assert!(!cb.allow_request());
}

#[test]
fn circuit_breaker_success_resets_to_closed() {
    let mut cb = CircuitBreaker::new(3, Span::from_secs(30));

    cb.record_failure();
    cb.record_failure();
    assert_eq!(cb.consecutive_failures(), 2);

    cb.record_success();
    assert_eq!(cb.state(), CircuitState::Closed);
    assert_eq!(cb.consecutive_failures(), 0);
    assert!(cb.allow_request());
}

#[test]
fn circuit_breaker_transitions_to_half_open() {
    let mut cb = CircuitBreaker::new(2, Span::from_millis(1));

    cb.record_failure();
    cb.record_failure();
    assert_eq!(cb.state(), CircuitState::Open);

    pause(Duration::from_millis(5));

    assert_eq!(cb.state(), CircuitState::HalfOpen);
    assert!(cb.allow_request());
}

#[test]
fn circuit_breaker_half_open_success_closes() {
    let mut cb = CircuitBreaker::new(2, Span::from_millis(1));

    cb.record_failure();
    cb.record_failure();

    pause(Duration::from_millis(5));
    assert_eq!(cb.state(), CircuitState::HalfOpen);

    cb.record_success();
    assert_eq!(cb.state(), CircuitState::Closed);
    assert!(cb.allow_request());
}

#[test]
fn circuit_breaker_half_open_failure_reopens() {
    let mut cb = CircuitBreaker::new(2, Span::from_millis(1));

    cb.record_failure();
    cb.record_failure();

    pause(Duration::from_millis(5));
    assert_eq!(cb.state(), CircuitState::HalfOpen);

    cb.record_failure();
    assert_eq!(cb.state(), CircuitState::Open);
}

#[test]
fn circuit_breaker_half_open_lets_one_call_through() {
    let mut cb = CircuitBreaker::new(2, Span::from_millis(1));
    cb.record_failure();
    cb.record_failure();
    assert!(!cb.let_pass(cb.state_after(Span::from_millis(0))));
    let half_open = cb.state_after(Span::from_millis(1));
    assert_eq!(half_open, CircuitState::HalfOpen);
    assert!(cb.let_pass(half_open));
    assert!(!cb.let_pass(half_open));
    pause(Duration::from_millis(5));
    assert!(!cb.allow_request());

    cb.record_failure();
    pause(Duration::from_millis(5));
    assert!(cb.allow_request());
    assert!(!cb.allow_request());

    cb.record_success();
    assert!(cb.allow_request());
    assert!(cb.allow_request());
}

#[test]
fn pool_starts_empty() {
    let pool: ConnectionPool<String> = ConnectionPool::new();
    assert!(pool.is_empty());
    assert_eq!(pool.len(), 0);
}

#[test]
fn pool_record_failure_opens_circuit() {
    let mut pool: ConnectionPool<String> = ConnectionPool::with_config(PoolConfig {
        max_connections_per_node: 10,
        failure_threshold: 2,
        open_duration: Span::from_secs(60),
    });

    pool.record_failure(99);
    pool.record_failure(99);

    assert!(pool.circuit_state(99).is_none());

    pool.insert(99, "client".to_owned());
    assert_eq!(pool.get(99).unwrap(), Some(&"client".to_owned()));
    pool.record_failure(99);
    pool.record_failure(99);
    assert_eq!(pool.circuit_state(99), Some(CircuitState::Open));
    assert!(matches!(pool.get(99), Err(DbError::NetworkError(_))));
    pool.record_success(99);
    assert_eq!(pool.circuit_state(99), Some(CircuitState::Closed));
    assert_eq!(pool.get(1).unwrap(), None);
}

#[test]
fn pool_remove_clears_entry() {
    let mut pool: ConnectionPool<String> = ConnectionPool::new();

    pool.remove(1);
    assert!(pool.is_empty());

    pool.insert(1, "client".to_owned());
    assert_eq!(pool.len(), 1);
    pool.remove(1);
    assert!(pool.is_empty());
}

#[test]
fn pool_config_default() {
    let config = PoolConfig::default();
    assert_eq!(config.max_connections_per_node, 10);
    assert_eq!(config.failure_threshold, 3);
    assert_eq!(config.open_duration, Span::from_secs(30));
}

// ---------------------------------------------------------------------------
// Consensus links
// ---------------------------------------------------------------------------

#[test]
fn grpc_network_factory_creates_client() {
    let network = GrpcNetworkFactory.new_client(1, "127.0.0.1:9300");
    assert_eq!(network.addr, "127.0.0.1:9300");
    assert_eq!(network.endpoint_url(), "http://127.0.0.1:9300");
    let refused = network.unreachable("refused");
    assert_eq!(refused.cause, Cause::ConnectionRefused);
    assert_eq!(refused.message, "failed to connect to 127.0.0.1:9300: refused");
    let secured = GrpcNetworkFactory.new_client(2, "https://db.example");
    assert_eq!(secured.endpoint_url(), "https://db.example");
}

#[test]
fn failed_steps_say_what_failed() {
    let f = failure(Step::Serialize, "VoteRequest", "bad");
    assert_eq!((f.cause, f.message.as_str()), (Cause::InvalidData, "serialize VoteRequest: bad"));
    let f = failure(Step::Call, "vote", "gone");
    assert_eq!((f.cause, f.message.as_str()), (Cause::ConnectionReset, "vote RPC: gone"));
    let f = failure(Step::Deserialize, "VoteResponse", "bad");
    assert_eq!(
        (f.cause, f.message.as_str()),
        (Cause::InvalidData, "deserialize VoteResponse: bad")
    );
}

#[test]
fn snapshot_arrives_in_one_piece_or_several() {
    let chunk = single_chunk(vec![1, 2, 3]);
    assert!(chunk.done && chunk.data.is_empty() && chunk.offset == 0);
    assert_eq!(assemble(vec![chunk]).unwrap(), vec![1, 2, 3]);

    let piece = |metadata: Vec<u8>, done: bool| proto::SnapshotChunk {
        offset: 0,
        data: vec![7],
        done,
        metadata,
    };
    let several = vec![
        piece(vec![], false),
        piece(vec![4], false),
        piece(vec![5], true),
        piece(vec![6], true),
    ];
    assert_eq!(assemble(several).unwrap(), vec![4]);

    let behind_the_end = vec![piece(vec![], true), piece(vec![8], true)];
    let refusal = assemble(behind_the_end).unwrap_err();
    assert_eq!(refusal.code, Code::InvalidArgument);
    assert_eq!(refusal.message, "no snapshot metadata received");
    assert!(assemble(vec![]).is_err());
}

// ---------------------------------------------------------------------------
// Scatter and gather
// ---------------------------------------------------------------------------

#[test]
fn dedup_empty() {
    let result = deduplicate_results(vec![]);
    assert!(result.is_empty());
}

#[test]
fn dedup_no_duplicates() {
    let docs = vec![make_scored("a", 1.0), make_scored("b", 2.0)];
    let result = deduplicate_results(docs);
    assert_eq!(result.len(), 2);
}

#[test]
fn dedup_keeps_highest_score() {
    let docs = vec![
        make_scored("a", 1.0),
        make_scored("a", 3.0),
        make_scored("a", 2.0),
    ];
    let result = deduplicate_results(docs);
    assert_eq!(result.len(), 1);
    assert_eq!(value(&result[0].score), 3.0);
}

#[test]
fn dedup_mixed_ids() {
    let docs = vec![
        make_scored("a", 1.0),
        make_scored("b", 5.0),
        make_scored("a", 4.0),
        make_scored("c", 2.0),
        make_scored("b", 3.0),
    ];
    let result = deduplicate_results(docs);
    assert_eq!(result.len(), 3);

    let scores: HashMap<String, f32> = result
        .iter()
        .map(|s| (s.document.id.clone(), value(&s.score)))
        .collect();
    assert_eq!(scores["a"], 4.0);
    assert_eq!(scores["b"], 5.0);
    assert_eq!(scores["c"], 2.0);
}

#[test]
fn rank_sorts_descending() {
    let docs = vec![
        make_scored("a", 1.0),
        make_scored("b", 3.0),
        make_scored("c", 2.0),
    ];
    let ranked = rank_results(docs, 10);
    assert_eq!(value(&ranked[0].score), 3.0);
    assert_eq!(value(&ranked[1].score), 2.0);
    assert_eq!(value(&ranked[2].score), 1.0);
}

#[test]
fn rank_truncates_to_limit() {
    let docs = vec![
        make_scored("a", 1.0),
        make_scored("b", 3.0),
        make_scored("c", 2.0),
        make_scored("d", 4.0),
    ];
    let ranked = rank_results(docs, 2);
    assert_eq!(ranked.len(), 2);
    assert_eq!(value(&ranked[0].score), 4.0);
    assert_eq!(value(&ranked[1].score), 3.0);
}

#[test]
fn rank_empty_input() {
    let ranked = rank_results(vec![], 10);
    assert!(ranked.is_empty());
}

#[test]
fn rank_orders_negative_scores_and_keeps_equal_ones() {
    let docs = vec![
        make_scored("a", -1.0),
        make_scored("b", 0.0),
        make_scored("c", -0.0),
        make_scored("d", -2.5),
    ];
    let ids: Vec<String> = rank_results(docs, 10)
        .into_iter()
        .map(|d| d.document.id)
        .collect();
    assert_eq!(ids, vec!["b", "c", "a", "d"]);
}

#[test]
fn scatter_search_empty_nodes() {
    let result = scatter_search(vec![], 10, 17);
    assert_eq!(result.total, 0);
    assert!(result.documents.is_empty());
    assert_eq!(result.took_ms, 0);
}

#[test]
fn merge_three_result_sets_correct_ranking() {
    let node1 = vec![make_scored("a", 3.0), make_scored("b", 1.0)];
    let node2 = vec![make_scored("c", 4.0), make_scored("a", 2.0)];
    let node3 = vec![make_scored("d", 2.5), make_scored("b", 0.5)];

    let mut all: Vec<ScoredDocument> = Vec::new();
    all.extend(node1);
    all.extend(node2);
    all.extend(node3);

    let deduped = deduplicate_results(all);
    let ranked = rank_results(deduped, 10);

    assert_eq!(ranked.len(), 4);
    assert_eq!(ranked[0].document.id, "c");
    assert_eq!(value(&ranked[0].score), 4.0);
    assert_eq!(ranked[1].document.id, "a");
    assert_eq!(value(&ranked[1].score), 3.0);
    assert_eq!(ranked[2].document.id, "d");
    assert_eq!(value(&ranked[2].score), 2.5);
    assert_eq!(ranked[3].document.id, "b");
    assert_eq!(value(&ranked[3].score), 1.0);
}

#[test]
fn merge_with_limit_returns_top_n() {
    let node1 = vec![make_scored("a", 5.0), make_scored("b", 1.0)];
    let node2 = vec![make_scored("c", 3.0), make_scored("d", 2.0)];
    let node3 = vec![make_scored("e", 4.0)];

    let mut all: Vec<ScoredDocument> = Vec::new();
    all.extend(node1);
    all.extend(node2);
    all.extend(node3);

    let deduped = deduplicate_results(all);
    let ranked = rank_results(deduped, 3);

    assert_eq!(ranked.len(), 3);
    assert_eq!(value(&ranked[0].score), 5.0);
    assert_eq!(value(&ranked[1].score), 4.0);
    assert_eq!(value(&ranked[2].score), 3.0);
}

fn reply(docs: Vec<ScoredDocument>) -> Option<SearchResult> {
    let total = docs.len() as u64;
    Some(SearchResult { documents: docs, total, took_ms: 1, aggregations: Table::new() })
}

#[test]
fn scatter_gather_with_three_nodes() {
    assert_eq!(NODE_TIMEOUT_MS, 200);
    let replies = vec![
        reply(vec![make_scored("a", 5.0)]),
        reply(vec![make_scored("b", 3.0)]),
        reply(vec![make_scored("c", 7.0)]),
    ];
    let result = scatter_search(replies, 10, 8);
    assert_eq!(result.documents.len(), 3);
    assert_eq!(result.documents[0].document.id.as_str(), "c");
    assert_eq!(result.documents[1].document.id.as_str(), "a");
    assert_eq!(result.documents[2].document.id.as_str(), "b");
    assert_eq!(result.total, 3);
    assert_eq!(result.took_ms, 8);
}

#[test]
fn slow_node_is_left_out() {
    let replies = vec![reply(vec![make_scored("a", 1.0)]), None, reply(vec![make_scored("b", 2.0)])];
    let result = scatter_search(replies, 10, 8);
    assert_eq!(result.total, 2);
    assert_eq!(result.documents.len(), 2);
    assert_eq!(result.documents[0].document.id, "b");
}

#[test]
fn scatter_gather_deduplication_across_nodes() {
    let replies = vec![
        reply(vec![make_scored("shared-doc", 2.0)]),
        reply(vec![make_scored("shared-doc", 5.0)]),
    ];
    let result = scatter_search(replies, 10, 1);
    assert_eq!(result.documents.len(), 1);
    assert_eq!(result.documents[0].document.id.as_str(), "shared-doc");
    assert_eq!(value(&result.documents[0].score), 5.0);
    assert_eq!(result.total, 2);
}

#[test]
fn gathering_tells_the_pool_of_each_node() {
    let mut pool: ConnectionPool<u8> = ConnectionPool::with_config(PoolConfig {
        max_connections_per_node: 10,
        failure_threshold: 1,
        open_duration: Span::from_secs(60),
    });
    pool.insert(1, 1);
    pool.insert(2, 2);
    let mut gather = Gather::new();
    gather.on_pool_reply(&mut pool, 1, reply(vec![make_scored("a", 1.0)]));
    gather.on_pool_reply(&mut pool, 2, None);
    assert_eq!(pool.circuit_state(1), Some(CircuitState::Closed));
    assert_eq!(pool.circuit_state(2), Some(CircuitState::Open));
    let result = gather.finish(5, 3);
    assert_eq!((result.total, result.took_ms, result.documents.len()), (1, 3, 1));
}

// ---------------------------------------------------------------------------
// Messages
// ---------------------------------------------------------------------------

#[test]
fn proto_write_response_default_values() {
    let resp = proto::WriteResponse {
        success: true,
        document_id: "doc-1".into(),
        error: String::new(),
    };
    assert!(resp.success);
    assert_eq!(resp.document_id, "doc-1");
}

#[test]
fn proto_health_response_construction() {
    let resp = proto::HealthResponse {
        node_id: 1,
        status: "Leader".into(),
        leader_id: 1,
        current_term: 5,
        last_applied: 42,
        is_healthy: true,
    };
    assert_eq!(resp.node_id, 1);
    assert_eq!(resp.status, "Leader");
    assert!(resp.is_healthy);
}

#[test]
fn proto_join_response_construction() {
    let resp = proto::JoinResponse {
        success: true,
        error: String::new(),
        leader_id: 1,
    };
    assert!(resp.success);
}

#[test]
fn proto_get_request_construction() {
    let req = proto::GetRequest {
        document_id: "abc-123".into(),
    };
    assert_eq!(req.document_id, "abc-123");
}

#[test]
fn protobuf_write_response_roundtrip() {
    let resp = proto::WriteResponse {
        success: true,
        document_id: "doc-42".into(),
        error: String::new(),
    };
    assert!(resp.success);
    assert_eq!(resp.document_id, "doc-42");
    assert!(resp.error.is_empty());
}

#[test]
fn protobuf_health_request_response() {
    let _req = proto::HealthRequest {};
    let resp = proto::HealthResponse {
        node_id: 7,
        status: "Follower".into(),
        leader_id: 1,
        current_term: 10,
        last_applied: 50,
        is_healthy: true,
    };
    assert_eq!(resp.node_id, 7);
    assert!(resp.is_healthy);
}

#[test]
fn protobuf_join_roundtrip() {
    let req = proto::JoinRequest {
        node_id: 5,
        address: "10.0.0.5:9300".into(),
    };
    assert_eq!(req.node_id, 5);
    assert_eq!(req.address, "10.0.0.5:9300");
    let addr = joining_address(&req);
    assert_eq!((addr.host.as_str(), addr.port), ("10.0.0.5:9300", 0));

    let resp = proto::JoinResponse {
        success: true,
        error: String::new(),
        leader_id: 1,
    };
    assert!(resp.success);
}

#[test]
fn protobuf_snapshot_chunk() {
    let chunk = proto::SnapshotChunk {
        offset: 0,
        data: vec![1, 2, 3, 4, 5],
        done: false,
        metadata: vec![10, 20],
    };
    assert_eq!(chunk.offset, 0);
    assert!(!chunk.done);
    assert_eq!(chunk.data.len(), 5);
    assert_eq!(chunk.metadata.len(), 2);
}

#[test]
fn refusals_say_what_failed() {
    let r = unreadable("Query", "eof");
    assert_eq!((r.code, r.message.as_str()), (Code::InvalidArgument, "failed to deserialize Query: eof"));
    let r = unwritable("Document", "nan");
    assert_eq!((r.code, r.message.as_str()), (Code::Internal, "failed to serialize Document: nan"));
    let r = failed("local search", "broken");
    assert_eq!((r.code, r.message.as_str()), (Code::Internal, "local search failed: broken"));
    let s = scatter_result(vec![1], 3);
    assert_eq!((s.scored_document, s.node_id), (vec![1], 3));
}

// ---------------------------------------------------------------------------
// TLS
// ---------------------------------------------------------------------------

#[test]
fn build_grpc_server_tls_returns_none_when_disabled() {
    let tls = TlsConfig::default();
    let result = build_grpc_server_tls(&tls).unwrap();
    assert!(result.is_none());
}

#[test]
fn build_grpc_client_tls_basic() {
    let config = build_grpc_client_tls(None, None, None, "localhost");
    assert_eq!(config.domain_name, "localhost");
    assert!(config.ca_cert.is_none() && config.identity.is_none());

    let half = build_grpc_client_tls(None, Some("c.pem".to_owned()), None, "localhost");
    assert!(half.identity.is_none());
    let both = build_grpc_client_tls(
        Some("ca.pem".to_owned()),
        Some("c.pem".to_owned()),
        Some("k.pem".to_owned()),
        "localhost",
    );
    let identity = both.identity.unwrap();
    assert_eq!((identity.cert.as_str(), identity.key.as_str()), ("c.pem", "k.pem"));
}

#[test]
fn load_http_tls_returns_none_when_disabled() {
    let tls = TlsConfig::default();
    let result = load_http_tls_config(&tls).unwrap();
    assert!(result.is_none());
}

#[test]
fn secured_servers_need_their_files() {
    let text = |r: Result<_, DbError>| match r {
        Err(DbError::InvalidInput(m)) => m,
        Err(other) => panic!("got {:?}", other),
        Ok(_) => panic!("expected an error"),
    };
    let mut tls = TlsConfig { enabled: true, ..TlsConfig::default() };
    assert_eq!(text(build_grpc_server_tls(&tls).map(|_| ())), "TLS cert_path required");
    tls.cert_path = Some("c.pem".to_owned());
    assert_eq!(text(load_http_tls_config(&tls).map(|_| ())), "TLS key_path required");
    tls.key_path = Some("k.pem".to_owned());
    let grpc = build_grpc_server_tls(&tls).unwrap().unwrap();
    assert_eq!((grpc.identity.cert.as_str(), grpc.identity.key.as_str()), ("c.pem", "k.pem"));
    assert_eq!(grpc.client_ca, None);
    tls.mtls_enabled = true;
    assert_eq!(text(build_grpc_server_tls(&tls).map(|_| ())), "mTLS ca_cert_path required");
    assert!(load_http_tls_config(&tls).unwrap().unwrap().client_ca.is_none());
    tls.ca_cert_path = Some("ca.pem".to_owned());
    let grpc = build_grpc_server_tls(&tls).unwrap().unwrap();
    assert_eq!(grpc.client_ca.as_deref(), Some("ca.pem"));
    let http = load_http_tls_config(&tls).unwrap().unwrap();
    assert_eq!(http.client_ca.as_deref(), Some("ca.pem"));
    match cannot_read(PemFile::CaCert, "ca.pem", "denied") {
        DbError::StorageError(m) => assert_eq!(m, "cannot read CA cert 'ca.pem': denied"),
        other => panic!("got {:?}", other),
    }
}
