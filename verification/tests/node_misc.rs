use msearchdb::clock::Span;
use msearchdb::model::error::DbError;
use msearchdb::node::admin_tui::{
    clock_text, collection_row, fetched_health, format_bytes, get_request, header_text, health_url,
    lag_color, lag_line, leader_line, log_color, metrics_url, nodes_line, parse_metric_value,
    response_body, sorted_collections, sorted_lag, split_url, status_color, App, ClusterHealthData,
    CollectionInfo, Color, HealthReply, Key, LOG_CAPACITY, LOG_SHOWN,
};
use msearchdb::node::cache::{CacheConfig, CacheCounters, CacheKey};
use msearchdb::node::metric_ids::number_of_metric;
use msearchdb::node::metrics::Metrics;
use msearchdb::node::middleware::{
    bearer_token, choose_request_id, connection_limited, decide_by_token, normalize_path,
    rate_limit_key, rate_limited, request_id, required_role, AuthConfig, AuthStep, Credentials,
    Method, Role, TokenCheck,
};
use msearchdb::node::observability::{init_tracing, init_tracing_with_otel};
use msearchdb::node::session::{SessionManager, SessionToken, WaitStep, MAX_WAIT_MS};
use msearchdb::table::Table;

// --- request ids, path labels -------------------------------------------------

#[test]
fn request_id_middleware_generates_id() {
    let id = request_id(None);
    assert_eq!(id.len(), 36);
    assert_eq!(id.matches('-').count(), 4);
    assert_ne!(id, request_id(None));
}

#[test]
fn request_id_middleware_preserves_existing() {
    assert_eq!(request_id(Some("my-custom-id".to_owned())), "my-custom-id");
    assert_eq!(choose_request_id(None, "made".to_owned()), "made");
    assert_eq!(choose_request_id(Some("sent".to_owned()), "made".to_owned()), "sent");
}

#[test]
fn normalize_path_replaces_dynamic_segments() {
    assert_eq!(
        normalize_path("/collections/products/docs/doc1"),
        "/collections/:name/docs/:id"
    );
    assert_eq!(
        normalize_path("/collections/products/_search"),
        "/collections/:name/_search"
    );
    assert_eq!(
        normalize_path("/collections/products/docs/_bulk"),
        "/collections/:name/docs/_bulk"
    );
    assert_eq!(normalize_path("/_aliases/my_alias"), "/_aliases/:name");
    assert_eq!(normalize_path("/_nodes/2/_join"), "/_nodes/:id/_join");
    assert_eq!(normalize_path("/_snapshot/abc123"), "/_snapshot/:id");
    assert_eq!(normalize_path("/_cluster/health"), "/_cluster/health");
    assert_eq!(normalize_path("/_stats"), "/_stats");
}

#[test]
fn a_label_is_its_own_label() {
    for path in ["/collections/a/docs/b", "/_nodes/7/_join", "/", "", "/collections"] {
        let label = normalize_path(path);
        assert_eq!(normalize_path(&label), label);
    }
    assert_eq!(
        normalize_path("/collections/a/docs/1"),
        normalize_path("/collections/b/docs/2")
    );
}

// --- authentication -----------------------------------------------------------

fn config(single_key: Option<&str>) -> AuthConfig {
    AuthConfig {
        keys: Table::new(),
        tokens: false,
        single_key: single_key.map(|k| k.to_owned()),
    }
}

fn credentials(api_key: Option<&str>, token: Option<&str>) -> Credentials {
    Credentials {
        api_key: api_key.map(|k| k.to_owned()),
        bearer_token: token.map(|t| t.to_owned()),
    }
}

fn status_of(step: AuthStep) -> u16 {
    match step {
        AuthStep::Pass => 200,
        AuthStep::Reject(e) => e.status,
        AuthStep::CheckToken(_) => 0,
    }
}

#[test]
fn auth_middleware_passes_when_no_key_configured() {
    let step = config(None).authenticate(Role::Reader, &credentials(None, None));
    assert_eq!(status_of(step), 200);
}

#[test]
fn auth_middleware_rejects_missing_key() {
    let step = config(Some("secret-key")).authenticate(Role::Reader, &credentials(None, None));
    assert_eq!(status_of(step), 401);
}

#[test]
fn auth_middleware_rejects_wrong_key() {
    let c = credentials(Some("wrong-key"), None);
    let step = config(Some("secret-key")).authenticate(Role::Reader, &c);
    assert_eq!(status_of(step), 401);
}

#[test]
fn auth_middleware_passes_correct_key() {
    let c = credentials(Some("secret-key"), None);
    let step = config(Some("secret-key")).authenticate(Role::Reader, &c);
    assert_eq!(status_of(step), 200);
}

#[test]
fn a_listed_key_decides_by_its_role() {
    let mut auth = config(Some("single"));
    auth.keys.insert("reader-key".to_owned(), Role::Reader);
    auth.tokens = true;
    let c = credentials(Some("reader-key"), Some("token"));
    assert_eq!(status_of(auth.authenticate(Role::Reader, &c)), 200);
    match auth.authenticate(Role::Admin, &c) {
        AuthStep::Reject(e) => {
            assert_eq!(e.status, 403);
            assert_eq!(e.error.error_type, "forbidden");
        }
        other => panic!("{:?}", other),
    }
}

#[test]
fn a_token_is_checked_before_the_single_key() {
    let mut auth = config(Some("single"));
    auth.tokens = true;
    match auth.authenticate(Role::Writer, &credentials(Some("single"), Some("abc"))) {
        AuthStep::CheckToken(t) => assert_eq!(t, "abc"),
        other => panic!("{:?}", other),
    }
    assert!(decide_by_token(Role::Writer, TokenCheck::Verified(Role::Admin)).is_ok());
    let low = decide_by_token(Role::Writer, TokenCheck::Verified(Role::Reader));
    assert_eq!(low.unwrap_err().status, 403);
    assert_eq!(decide_by_token(Role::Writer, TokenCheck::Invalid).unwrap_err().status, 401);
}

#[test]
fn roles_are_ordered() {
    assert!(Role::Admin.has_permission(Role::Writer));
    assert!(Role::Writer.has_permission(Role::Writer));
    assert!(!Role::Reader.has_permission(Role::Writer));
    assert_eq!(Role::Admin.level(), 3);
}

#[test]
fn each_request_needs_its_role() {
    assert_eq!(required_role(Method::Post, "/_nodes/2/_join"), Role::Admin);
    assert_eq!(required_role(Method::Post, "/_restore"), Role::Admin);
    assert_eq!(required_role(Method::Post, "/_snapshot"), Role::Admin);
    assert_eq!(required_role(Method::Get, "/_snapshot"), Role::Reader);
    assert_eq!(required_role(Method::Put, "/collections/a"), Role::Admin);
    assert_eq!(required_role(Method::Delete, "/collections/a"), Role::Admin);
    assert_eq!(required_role(Method::Put, "/collections/a/docs/1"), Role::Writer);
    assert_eq!(required_role(Method::Post, "/collections/a/docs"), Role::Writer);
    assert_eq!(required_role(Method::Post, "/collections/a/_search"), Role::Reader);
    assert_eq!(required_role(Method::Get, "/collections/a"), Role::Reader);
    assert_eq!(required_role(Method::Delete, "/collections/docs"), Role::Admin);
    assert_eq!(required_role(Method::Put, "/collections/_search"), Role::Admin);
    assert_eq!(required_role(Method::Delete, "/collections/c/docs/_search"), Role::Writer);
    assert_eq!(required_role(Method::Post, "/collections/c/_refresh"), Role::Writer);
    assert_eq!(required_role(Method::Put, "/_aliases/_search"), Role::Writer);
    assert_eq!(required_role(Method::Post, "/_search"), Role::Reader);
    assert_eq!(required_role(Method::Post, "/x/_search"), Role::Writer);
}

#[test]
fn bearer_tokens_stand_behind_their_scheme() {
    assert_eq!(bearer_token(&Some("Bearer abc".to_owned())), Some("abc".to_owned()));
    assert_eq!(bearer_token(&Some("Basic abc".to_owned())), None);
    assert_eq!(bearer_token(&None), None);
}

#[test]
fn limits_have_their_answers() {
    assert_eq!(rate_limit_key(&Some("k".to_owned())), "k");
    assert_eq!(rate_limit_key(&None), "anonymous");
    assert_eq!(rate_limited().status, 429);
    assert_eq!(rate_limited().error.error_type, "rate_limited");
    assert_eq!(connection_limited().status, 503);
    assert_eq!(connection_limited().error.error_type, "connection_limit");
}

// --- sessions -----------------------------------------------------------------

#[test]
fn session_token_encode_decode_roundtrip() {
    let token = SessionToken::new(42);
    let encoded = token.encode();
    assert_eq!(encoded, "msearchdb:42");

    let decoded = SessionToken::decode(&encoded);
    assert_eq!(decoded, Some(token));
}

#[test]
fn session_token_decode_invalid() {
    assert!(SessionToken::decode("").is_none());
    assert!(SessionToken::decode("invalid").is_none());
    assert!(SessionToken::decode("msearchdb:").is_none());
    assert!(SessionToken::decode("msearchdb:abc").is_none());
    assert!(SessionToken::decode("other:42").is_none());
}

#[test]
fn session_token_limits() {
    let last = SessionToken::new(u64::MAX);
    assert_eq!(SessionToken::decode(&last.encode()), Some(last));
    assert!(SessionToken::decode("msearchdb:18446744073709551616").is_none());
}

#[test]
fn session_manager_advance_index() {
    let mut mgr = SessionManager::new();
    assert_eq!(mgr.current_applied_index(), 0);

    mgr.advance_applied_index(5);
    assert_eq!(mgr.current_applied_index(), 5);

    // Monotonic: lower values are ignored.
    mgr.advance_applied_index(3);
    assert_eq!(mgr.current_applied_index(), 5);

    mgr.advance_applied_index(10);
    assert_eq!(mgr.current_applied_index(), 10);
}

#[test]
fn session_manager_wait_already_applied() {
    let mut mgr = SessionManager::new();
    mgr.advance_applied_index(10);
    assert!(matches!(mgr.wait_for_index(5, Span::from_millis(0)), WaitStep::Ready));
}

#[test]
fn session_manager_wait_concurrent_advance() {
    let mut mgr = SessionManager::new();
    assert!(matches!(mgr.wait_for_index(10, Span::from_millis(4)), WaitStep::Sleep));
    mgr.advance_applied_index(10);
    assert!(matches!(mgr.wait_for_index(10, Span::from_millis(5)), WaitStep::Ready));
}

#[test]
fn session_manager_wait_timeout() {
    let mut mgr = SessionManager::new();
    mgr.advance_applied_index(1);
    assert!(matches!(mgr.wait_for_index(999, Span::from_millis(MAX_WAIT_MS - 1)), WaitStep::Sleep));
    match mgr.wait_for_index(999, Span::from_millis(MAX_WAIT_MS)) {
        WaitStep::TimedOut(DbError::ConsistencyError(m)) => {
            assert_eq!(m, "timed out waiting for applied index 999 (current: 1)");
        }
        other => panic!("{:?}", other),
    }
}

#[test]
fn session_manager_token_for_write() {
    let mut mgr = SessionManager::new();
    let token = mgr.token_for_write(42);
    assert_eq!(token.committed_index, 42);
    assert_eq!(mgr.current_applied_index(), 42);
}

// --- the cache ----------------------------------------------------------------

#[test]
fn cache_defaults() {
    let c = CacheConfig::default();
    assert_eq!(c.max_capacity, 10_000);
    assert_eq!(c.ttl.as_millis(), 60_000);
}

#[test]
fn cache_keys_isolate_collections() {
    let key = CacheKey::new("products", "doc-1");
    assert_eq!(key.text, "products\0doc-1");
    assert!(key.is_in("products"));
    assert!(!key.is_in("orders"));
    assert!(!key.is_in("product"));
}

#[test]
fn cache_counters_count() {
    let mut c = CacheCounters::new();
    c.record(true);
    c.record(false);
    assert_eq!((c.hit_count(), c.miss_count()), (1, 1));
}

// --- the dashboard ------------------------------------------------------------

fn metric(text: &str, name: &str) -> Option<f64> {
    parse_metric_value(text, name).and_then(|t| t.parse().ok())
}

#[test]
fn parse_metric_value_finds_simple_gauge() {
    let text = "\
# HELP msearchdb_raft_commit_index Latest committed Raft log index
# TYPE msearchdb_raft_commit_index gauge
msearchdb_raft_commit_index 42
";
    assert_eq!(metric(text, "msearchdb_raft_commit_index"), Some(42.0));
}

#[test]
fn parse_metric_value_finds_labelled_metric() {
    let text = "\
# TYPE msearchdb_http_requests_total counter
msearchdb_http_requests_total{method=\"GET\",path=\"/collections\",status=\"200\"} 137
";
    assert_eq!(metric(text, "msearchdb_http_requests_total"), Some(137.0));
}

#[test]
fn parse_metric_value_returns_none_for_missing() {
    let text = "# TYPE foo gauge\nfoo 1\n";
    assert_eq!(parse_metric_value(text, "bar"), None);
}

#[test]
fn parse_metric_value_ignores_comment_lines() {
    let text = "# msearchdb_raft_commit_index 999\nmsearchdb_raft_commit_index 7\n";
    assert_eq!(metric(text, "msearchdb_raft_commit_index"), Some(7.0));
}

#[test]
fn parse_metric_value_does_not_match_prefix_of_different_metric() {
    let text = "msearchdb_http_requests_total_created 1234\nmsearchdb_http_requests_total 99\n";
    assert_eq!(metric(text, "msearchdb_http_requests_total"), Some(99.0));
}

#[test]
fn format_bytes_units() {
    assert_eq!(format_bytes(0), "0 B");
    assert_eq!(format_bytes(512), "512 B");
    assert_eq!(format_bytes(1024), "1.0 KB");
    assert_eq!(format_bytes(1_048_576), "1.0 MB");
    assert_eq!(format_bytes(1_073_741_824), "1.0 GB");
}

#[test]
fn format_bytes_rounds_like_a_float() {
    for bytes in [1025u64, 1536, 1587, 1075, 1126, 2_621_440, 1_048_575, 5_000_000_000, 1_100_000] {
        let (unit, name) = if bytes >= 1_073_741_824 {
            (1_073_741_824.0, "GB")
        } else if bytes >= 1_048_576 {
            (1_048_576.0, "MB")
        } else {
            (1024.0, "KB")
        };
        assert_eq!(format_bytes(bytes), format!("{:.1} {}", bytes as f64 / unit, name));
    }
}

#[test]
fn status_color_mapping() {
    assert_eq!(status_color("green"), Color::Green);
    assert_eq!(status_color("yellow"), Color::Yellow);
    assert_eq!(status_color("red"), Color::Red);
    assert_eq!(status_color("unknown"), Color::DarkGray);
}

#[test]
fn app_new_forces_immediate_refresh() {
    let app = App::new("http://localhost:9200");
    assert!(app.needs_refresh());
    assert!(!app.should_quit);
}

#[test]
fn app_refreshes_every_two_seconds() {
    assert!(App::is_due(None));
    assert!(App::is_due(Some(Span::from_secs(2))));
    assert!(!App::is_due(Some(Span::from_millis(1_999))));
    let mut app = App::new("http://localhost:9200");
    app.refresh(ClusterHealthData::with_status("green"), "m 1\n".to_owned(), 0);
    assert!(!app.needs_refresh());
}

#[test]
fn chrono_now_format() {
    for secs in [0u64, 59, 3_600, 86_399, 1_700_000_000] {
        let ts = clock_text(secs);
        assert_eq!(ts.len(), 8);
        assert_eq!(&ts[2..3], ":");
        assert_eq!(&ts[5..6], ":");
    }
    assert_eq!(clock_text(86_399), "23:59:59");
    assert_eq!(clock_text(90_061), "01:01:01");
}

#[test]
fn app_keeps_a_bounded_log() {
    let mut app = App::new("http://localhost:9200");
    for i in 0..(LOG_CAPACITY as u64 + 5) {
        let mut health = ClusterHealthData::with_status("green");
        health.number_of_nodes = i;
        app.refresh(health, String::new(), i);
    }
    assert_eq!(app.ops_log.len(), LOG_CAPACITY);
    let shown = app.shown_log();
    assert_eq!(shown.len(), LOG_SHOWN);
    assert_eq!(shown.last(), app.ops_log.last());
    assert_eq!(app.metrics_text, "");
    assert_eq!(app.health.status, "green");
}

#[test]
fn app_quits_on_its_keys() {
    for (key, quits) in [(Key::Esc, true), (Key::Char('q'), true), (Key::Char('x'), false), (Key::Other, false)] {
        let mut app = App::new("http://localhost:9200");
        app.on_key(key);
        assert_eq!(app.should_quit, quits);
    }
}

#[test]
fn health_replies() {
    assert_eq!(fetched_health(HealthReply::Unreadable).status, "unknown");
    assert_eq!(fetched_health(HealthReply::Unreachable).status, "unreachable");
    let green = HealthReply::Health(ClusterHealthData::with_status("green"));
    assert_eq!(fetched_health(green).status, "green");
}

#[test]
fn requests_and_responses() {
    assert_eq!(
        split_url("http://localhost:9200/_cluster/health"),
        ("localhost:9200".to_owned(), "/_cluster/health".to_owned())
    );
    assert_eq!(split_url("localhost:9200"), ("localhost:9200".to_owned(), "/".to_owned()));
    assert_eq!(
        get_request("h:1", "/x"),
        "GET /x HTTP/1.1\r\nHost: h:1\r\nConnection: close\r\n\r\n"
    );
    assert_eq!(response_body("HTTP/1.1 200 OK\r\n\r\n{}"), "{}");
    assert_eq!(health_url("http://h:1"), "http://h:1/_cluster/health");
    assert_eq!(metrics_url("http://h:1"), "http://h:1/metrics");
}

#[test]
fn panel_lines() {
    assert_eq!(header_text("prod", "green"), "MSearchDB Admin — prod  [green]");
    assert_eq!(header_text("", "red"), "MSearchDB Admin — msearchdb  [red]");
    let l = leader_line(Some(3));
    assert_eq!((l.label.as_str(), l.value.as_str()), ("Leader: Node ", "3"));
    assert_eq!(leader_line(None).color, Some(Color::Red));
    assert_eq!(nodes_line(2, 3).value, "2/3");
    let l = lag_line("2", -5);
    assert_eq!((l.label.as_str(), l.value.as_str()), ("  Node 2: ", "-5 entries"));
    assert_eq!(lag_color(0), Color::Green);
    assert_eq!(lag_color(9), Color::Yellow);
    assert_eq!(lag_color(10), Color::Red);
    assert_eq!(log_color("[00:00:00] health: unreachable"), Color::Red);
    assert_eq!(log_color("[00:00:00] health: yellow"), Color::Yellow);
}

#[test]
fn tables_are_shown_in_order() {
    let mut health = ClusterHealthData::with_status("green");
    health.replication_lag.insert("3".to_owned(), 5);
    health.replication_lag.insert("2".to_owned(), 0);
    assert_eq!(sorted_lag(&health), vec![("2".to_owned(), 0), ("3".to_owned(), 5)]);
    health.collections.insert("b".to_owned(), CollectionInfo { docs: 1, size_bytes: 0 });
    health.collections.insert("a".to_owned(), CollectionInfo { docs: 1000, size_bytes: 2048 });
    let rows = sorted_collections(&health);
    assert_eq!((rows[0].0.as_str(), rows[1].0.as_str()), ("a", "b"));
    assert_eq!(collection_row(&rows[0].0, rows[0].1), vec!["a", "1000", "2.0 KB"]);
}

// --- the log ------------------------------------------------------------------

#[test]
fn the_log_goes_where_it_is_told() {
    let plan = init_tracing(true, Some("/var/log"));
    assert!(plan.console.json);
    assert_eq!(plan.file.unwrap().directory, "/var/log");
    assert!(plan.export.is_none());
    assert!(init_tracing(false, None).file.is_none());
    let plan = init_tracing_with_otel(false, None, Some("http://otel:4317"), "msearchdb");
    let export = plan.export.unwrap();
    assert_eq!(export.endpoint, "http://otel:4317");
    assert_eq!(export.service_name, "msearchdb");
    assert!(init_tracing_with_otel(false, None, None, "msearchdb").export.is_none());
}

// --- metrics ------------------------------------------------------------------

#[test]
fn metrics_registration_does_not_panic() {
    let _metrics = Metrics::new();
}

#[test]
fn metrics_have_the_numbers_of_their_names() {
    let desc = |name: &str| {
        let labels = std::collections::HashMap::new();
        prometheus::core::Desc::new(name.to_string(), "help".to_string(), vec![], labels).unwrap()
    };
    for name in ["msearchdb_documents_total", "msearchdb_node_health", "a", "A:b_9"] {
        assert_eq!(number_of_metric(name), desc(name).id);
    }
    assert_eq!(number_of_metric("msearchdb_documents_total"), 0xfd4a4ac0b5f39cc7);
    let metrics = Metrics::new();
    for family in metrics.registry.gather() {
        // A second metric of the same name is refused.
        let twin = prometheus::IntCounter::new(family.get_name(), "help").unwrap();
        assert!(metrics.registry.register(Box::new(twin)).is_err());
    }
}

#[test]
fn a_first_report_tells_of_single_gauges() {
    let report = Metrics::new().gather();
    let gauges = [
        ("msearchdb_storage_bytes_used", "Approximate storage bytes used"),
        ("msearchdb_raft_commit_index", "Latest committed Raft log index"),
        ("msearchdb_raft_leader_id", "Node ID of the current Raft leader"),
        ("msearchdb_active_connections", "Number of active HTTP connections"),
        ("msearchdb_collections_total", "Total number of collections"),
    ];
    for (name, help) in gauges {
        let lines = format!("# HELP {name} {help}\n# TYPE {name} gauge\n{name} 0\n");
        assert!(report.contains(&lines));
    }
    // What is split up by labels has no value yet.
    assert!(!report.contains("msearchdb_documents_total"));
}

#[test]
fn metrics_default_does_not_panic() {
    let _metrics = Metrics::default();
}

#[test]
fn metrics_gather_returns_valid_prometheus_format() {
    let metrics = Metrics::new();

    // Increment some counters.
    metrics.documents_total.inner.with_label_values(&["products"]).inc();
    metrics
        .index_operations_total
        .inner
        .with_label_values(&["index", "products"])
        .inc();
    metrics
        .http_requests_total
        .inner
        .with_label_values(&["GET", "/collections", "200"])
        .inc();

    // Set some gauges.
    metrics.storage_bytes_used.inner.set(1024);
    metrics.raft_commit_index.inner.set(42);
    metrics.raft_leader_id.inner.set(1);
    metrics.node_health.inner.with_label_values(&["node-1"]).set(1.0);

    // Observe histogram values.
    metrics
        .search_duration_seconds
        .inner
        .with_label_values(&["products"])
        .observe(0.025);
    metrics
        .http_request_duration_seconds
        .inner
        .with_label_values(&["GET", "/collections"])
        .observe(0.010);

    let output = metrics.gather();

    assert!(output.contains("msearchdb_documents_total"));
    assert!(output.contains("msearchdb_index_operations_total"));
    assert!(output.contains("msearchdb_search_duration_seconds"));
    assert!(output.contains("msearchdb_storage_bytes_used"));
    assert!(output.contains("msearchdb_raft_commit_index"));
    assert!(output.contains("msearchdb_http_requests_total"));
    assert!(output.contains("msearchdb_http_request_duration_seconds"));

    // Verify it contains TYPE declarations (Prometheus format).
    assert!(output.contains("# TYPE msearchdb_documents_total counter"));
    assert!(output.contains("# TYPE msearchdb_search_duration_seconds histogram"));
    assert!(output.contains("# TYPE msearchdb_storage_bytes_used gauge"));
}

#[test]
fn metrics_counters_increment_correctly() {
    let metrics = Metrics::new();

    metrics.documents_total.inner.with_label_values(&["test"]).inc_by(5);
    let val = metrics.documents_total.inner.with_label_values(&["test"]).get();
    assert_eq!(val, 5);

    metrics
        .index_operations_total
        .inner
        .with_label_values(&["index", "test"])
        .inc_by(3);
    let val = metrics
        .index_operations_total
        .inner
        .with_label_values(&["index", "test"])
        .get();
    assert_eq!(val, 3);
}

#[test]
fn metrics_gauges_set_correctly() {
    let metrics = Metrics::new();

    metrics.raft_commit_index.inner.set(100);
    assert_eq!(metrics.raft_commit_index.inner.get(), 100);

    metrics.raft_leader_id.inner.set(3);
    assert_eq!(metrics.raft_leader_id.inner.get(), 3);

    metrics.storage_bytes_used.inner.set(1_000_000);
    assert_eq!(metrics.storage_bytes_used.inner.get(), 1_000_000);
}

#[test]
fn new_metrics_gather_contains_all_new_metrics() {
    let metrics = Metrics::new();

    // Exercise the new metrics so they appear in the output.
    let no_labels: [&str; 0] = [];
    metrics
        .raft_commit_latency_seconds
        .inner
        .with_label_values(&no_labels)
        .observe(0.003);
    metrics.replication_lag.inner.with_label_values(&["node-2"]).set(5.0);
    metrics.cache_hits_total.inner.with_label_values(&["query"]).inc_by(10);
    metrics.cache_misses_total.inner.with_label_values(&["query"]).inc_by(2);
    metrics.active_connections.inner.set(42);
    metrics.collections_total.inner.set(7);

    let output = metrics.gather();

    assert!(output.contains("msearchdb_raft_commit_latency_seconds"));
    assert!(output.contains("msearchdb_replication_lag"));
    assert!(output.contains("msearchdb_cache_hits_total"));
    assert!(output.contains("msearchdb_cache_misses_total"));
    assert!(output.contains("msearchdb_active_connections"));
    assert!(output.contains("msearchdb_collections_total"));

    // Verify TYPE declarations for new metrics.
    assert!(output.contains("# TYPE msearchdb_raft_commit_latency_seconds histogram"));
    assert!(output.contains("# TYPE msearchdb_replication_lag gauge"));
    assert!(output.contains("# TYPE msearchdb_cache_hits_total counter"));
    assert!(output.contains("# TYPE msearchdb_cache_misses_total counter"));
    assert!(output.contains("# TYPE msearchdb_active_connections gauge"));
    assert!(output.contains("# TYPE msearchdb_collections_total gauge"));
}

#[test]
fn new_metrics_counters_increment_correctly() {
    let metrics = Metrics::new();

    metrics.cache_hits_total.inner.with_label_values(&["document"]).inc_by(15);
    assert_eq!(metrics.cache_hits_total.inner.with_label_values(&["document"]).get(), 15);

    metrics.cache_misses_total.inner.with_label_values(&["document"]).inc_by(3);
    assert_eq!(metrics.cache_misses_total.inner.with_label_values(&["document"]).get(), 3);
}

#[test]
fn new_metrics_gauges_set_correctly() {
    let metrics = Metrics::new();

    metrics.active_connections.inner.set(128);
    assert_eq!(metrics.active_connections.inner.get(), 128);

    metrics.active_connections.inner.inc();
    assert_eq!(metrics.active_connections.inner.get(), 129);

    metrics.active_connections.inner.dec();
    assert_eq!(metrics.active_connections.inner.get(), 128);

    metrics.collections_total.inner.set(5);
    assert_eq!(metrics.collections_total.inner.get(), 5);

    metrics.replication_lag.inner.with_label_values(&["node-3"]).set(12.0);
    assert!(
        (metrics.replication_lag.inner.with_label_values(&["node-3"]).get() - 12.0).abs()
            < f64::EPSILON
    );
}

#[test]
fn raft_commit_latency_uses_custom_buckets() {
    let metrics = Metrics::new();

    // Observe a value that falls in the sub-millisecond bucket.
    let no_labels: [&str; 0] = [];
    metrics
        .raft_commit_latency_seconds
        .inner
        .with_label_values(&no_labels)
        .observe(0.0003);

    let output = metrics.gather();

    // The 0.0005 bucket should exist (custom bucket boundary).
    assert!(output.contains("msearchdb_raft_commit_latency_seconds_bucket{le=\"0.0005\"}"));
    // The default 0.005 bucket should also be present.
    assert!(output.contains("msearchdb_raft_commit_latency_seconds_bucket{le=\"0.005\"}"));
}
