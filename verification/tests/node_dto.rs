use serde_json::Value;

use msearchdb::json::{Json, Number};
use msearchdb::model::document::{Document, FieldValue};
use msearchdb::model::error::DbError;
use msearchdb::model::query::{
    Operator, Query, Score, ScoredDocument, SearchResult, SortOrder,
};
use msearchdb::node::dto::{
    build_document, default_operator_str, default_post_tag, default_pre_tag, default_simple_size,
    default_size, default_sort_order, field_value_to_json, fields_to_value, json_to_field_value,
    request_to_document, request_to_document_with, BoolQueryDsl, BulkAction, BulkActionMeta,
    BulkItem, BulkResponse, ClusterHealthResponse, CollectionInfoResponse, ErrorResponse,
    IndexDocumentRequest, IndexDocumentResponse, MatchFieldQuery, QueryDsl, RangeFieldQuery,
    SearchRequest, SearchResponse, SortField,
};
use msearchdb::node::errors::db_error_to_response;
use msearchdb::table::Table;

fn num(v: f64) -> Number {
    Number { bits: v.to_bits() }
}

fn json(v: &Value) -> Json {
    match v {
        Value::Null => Json::Null,
        Value::Bool(b) => Json::Bool(*b),
        Value::Number(n) => Json::Number(num(n.as_f64().unwrap())),
        Value::String(s) => Json::Text(s.clone()),
        Value::Array(items) => Json::Array(items.iter().map(json).collect()),
        Value::Object(members) => {
            Json::Object(members.iter().map(|(k, v)| (k.clone(), json(v))).collect())
        }
    }
}

fn dsl(v: &Value) -> QueryDsl {
    let (kind, body) = v.as_object().unwrap().iter().next().unwrap();
    let entries = body.as_object().unwrap();
    match kind.as_str() {
        "match" => QueryDsl::Match(
            entries
                .iter()
                .map(|(f, o)| {
                    let operator = match o.get("operator") {
                        Some(op) => op.as_str().unwrap().to_owned(),
                        None => default_operator_str(),
                    };
                    let query = o.get("query").unwrap().as_str().unwrap().to_owned();
                    (f.clone(), MatchFieldQuery { query, operator })
                })
                .collect(),
        ),
        "term" => QueryDsl::Term(
            entries
                .iter()
                .map(|(f, x)| (f.clone(), x.as_str().unwrap().to_owned()))
                .collect(),
        ),
        "range" => QueryDsl::Range(
            entries
                .iter()
                .map(|(f, b)| {
                    let bound = |k: &str| b.get(k).and_then(|x| x.as_f64()).map(num);
                    (f.clone(), RangeFieldQuery { gte: bound("gte"), lte: bound("lte") })
                })
                .collect(),
        ),
        "bool" => {
            let list = |k: &str| match entries.get(k) {
                Some(l) => l.as_array().unwrap().iter().map(dsl).collect(),
                None => Vec::new(),
            };
            QueryDsl::Bool(BoolQueryDsl {
                must: list("must"),
                should: list("should"),
                must_not: list("must_not"),
            })
        }
        other => panic!("unknown query {}", other),
    }
}

fn parse_dsl(text: &str) -> QueryDsl {
    dsl(&serde_json::from_str::<Value>(text).unwrap())
}

fn action(v: &Value) -> BulkAction {
    let (kind, body) = v.as_object().unwrap().iter().next().unwrap();
    let id = body.get("_id").and_then(|x| x.as_str()).map(|s| s.to_owned());
    match kind.as_str() {
        "index" => BulkAction::Index(BulkActionMeta { id }),
        "delete" => BulkAction::Delete(BulkActionMeta { id }),
        other => panic!("unknown action {}", other),
    }
}

fn parse_action(text: &str) -> BulkAction {
    action(&serde_json::from_str::<Value>(text).unwrap())
}

fn request(text: &str) -> IndexDocumentRequest {
    let v = serde_json::from_str::<Value>(text).unwrap();
    let fields = match json(v.get("fields").unwrap()) {
        Json::Object(members) => members,
        _ => panic!("fields are an object"),
    };
    let id = v.get("id").and_then(|x| x.as_str()).map(|s| s.to_owned());
    IndexDocumentRequest { id, fields }
}

fn search_request(text: &str) -> SearchRequest {
    let v = serde_json::from_str::<Value>(text).unwrap();
    let count = |k: &str| v.get(k).and_then(|x| x.as_u64()).map(|n| n as usize);
    SearchRequest {
        query: dsl(v.get("query").unwrap()),
        size: match count("size") {
            Some(n) => Some(n),
            None => default_size(),
        },
        from: count("from"),
        highlight: None,
        sort: None,
    }
}

// ---------------------------------------------------------------------------
// Queries
// ---------------------------------------------------------------------------

#[test]
fn query_dsl_match_parse() {
    let json = r#"{"match": {"title": {"query": "rust programming", "operator": "and"}}}"#;
    let query = parse_dsl(json).into_core_query();
    match &query {
        Query::FullText(ft) => {
            assert_eq!(ft.field, "title");
            assert_eq!(ft.query, "rust programming");
            assert_eq!(ft.operator, Operator::And);
        }
        _ => panic!("expected FullText query"),
    }
}

#[test]
fn a_query_converts_into_a_core_query() {
    let query: Query = parse_dsl(r#"{"term": {"status": "published"}}"#).into();
    match query {
        Query::Term(t) => {
            assert_eq!((t.field.as_str(), t.value.as_str()), ("status", "published"))
        }
        other => panic!("{:?}", other),
    }
}

#[test]
fn query_dsl_match_default_operator() {
    let json = r#"{"match": {"body": {"query": "hello world"}}}"#;
    let query = parse_dsl(json).into_core_query();
    match &query {
        Query::FullText(ft) => {
            assert_eq!(ft.operator, Operator::Or);
        }
        _ => panic!("expected FullText query"),
    }
}

#[test]
fn query_dsl_term_parse() {
    let json = r#"{"term": {"status": "published"}}"#;
    let query = parse_dsl(json).into_core_query();
    match &query {
        Query::Term(t) => {
            assert_eq!(t.field, "status");
            assert_eq!(t.value, "published");
        }
        _ => panic!("expected Term query"),
    }
}

#[test]
fn query_dsl_range_parse() {
    let json = r#"{"range": {"price": {"gte": 10.0, "lte": 100.0}}}"#;
    let query = parse_dsl(json).into_core_query();
    match &query {
        Query::Range(r) => {
            assert_eq!(r.field, "price");
            assert_eq!(r.gte, Some(num(10.0)));
            assert_eq!(r.lte, Some(num(100.0)));
        }
        _ => panic!("expected Range query"),
    }
}

#[test]
fn query_dsl_bool_parse() {
    let json = r#"{
        "bool": {
            "must": [
                {"term": {"status": "active"}}
            ],
            "should": [
                {"match": {"title": {"query": "rust"}}}
            ],
            "must_not": [
                {"range": {"price": {"gte": 1000.0}}}
            ]
        }
    }"#;
    let query = parse_dsl(json).into_core_query();
    match &query {
        Query::Bool(b) => {
            assert_eq!(b.must.len(), 1);
            assert_eq!(b.should.len(), 1);
            assert_eq!(b.must_not.len(), 1);
            assert!(matches!(b.must[0], Query::Term(_)));
            assert!(matches!(b.should[0], Query::FullText(_)));
            assert!(matches!(b.must_not[0], Query::Range(_)));
        }
        _ => panic!("expected Bool query"),
    }
}

#[test]
fn empty_query_bodies_name_nothing() {
    match QueryDsl::Match(vec![]).into_core_query() {
        Query::FullText(ft) => {
            assert_eq!((ft.field.as_str(), ft.query.as_str()), ("_body", ""));
            assert_eq!(ft.operator, Operator::Or);
        }
        _ => panic!("expected FullText query"),
    }
    match QueryDsl::Term(vec![]).into_core_query() {
        Query::Term(t) => assert_eq!((t.field.as_str(), t.value.as_str()), ("", "")),
        _ => panic!("expected Term query"),
    }
    match QueryDsl::Range(vec![]).into_core_query() {
        Query::Range(r) => assert!(r.field.is_empty() && r.gte.is_none() && r.lte.is_none()),
        _ => panic!("expected Range query"),
    }
}

#[test]
fn defaults_of_requests() {
    assert_eq!(default_sort_order(), "desc");
    assert_eq!(default_pre_tag(), "<em>");
    assert_eq!(default_post_tag(), "</em>");
    assert_eq!(default_simple_size(), 10);
}

// ---------------------------------------------------------------------------
// Documents
// ---------------------------------------------------------------------------

#[test]
fn index_document_request_parse() {
    let req = request(r#"{"id": "doc-1", "fields": {"title": "hello", "count": 42}}"#);
    assert_eq!(req.id, Some("doc-1".to_string()));
    assert_eq!(req.fields.len(), 2);
}

#[test]
fn index_document_request_no_id() {
    let req = request(r#"{"fields": {"title": "hello"}}"#);
    assert!(req.id.is_none());
}

#[test]
fn index_document_response_fields() {
    let resp = IndexDocumentResponse {
        id: "doc-1".into(),
        result: "created".into(),
        version: 1,
    };
    assert_eq!((resp.id.as_str(), resp.result.as_str(), resp.version), ("doc-1", "created", 1));
}

#[test]
fn search_response_from_result() {
    let result = SearchResult {
        documents: vec![ScoredDocument {
            document: Document::new("d1")
                .with_field("title", FieldValue::Text("hello".into())),
            score: Score { bits: 1.5f32.to_bits() },
            sort: Vec::new(),
        }],
        total: 1,
        took_ms: 5,
        aggregations: Table::new(),
    };

    let resp = SearchResponse::from_search_result(result);
    assert_eq!(resp.hits.total.value, 1);
    assert_eq!(resp.hits.total.relation, "eq");
    assert_eq!(resp.hits.hits.len(), 1);
    assert_eq!(resp.hits.hits[0].id, "d1");
    assert_eq!(resp.took, 5);
    assert!(!resp.timed_out);
}

#[test]
fn field_value_json_roundtrip() {
    let fv = FieldValue::Text("hello".into());
    match json_to_field_value(&field_value_to_json(&fv)) {
        Some(FieldValue::Text(t)) => assert_eq!(t, "hello"),
        other => panic!("got {:?}", other),
    }

    let fv = FieldValue::Number(num(42.5));
    match json_to_field_value(&field_value_to_json(&fv)) {
        Some(FieldValue::Number(n)) => assert_eq!(n, num(42.5)),
        other => panic!("got {:?}", other),
    }

    let fv = FieldValue::Boolean(true);
    match json_to_field_value(&field_value_to_json(&fv)) {
        Some(FieldValue::Boolean(b)) => assert!(b),
        other => panic!("got {:?}", other),
    }
}

#[test]
fn values_that_are_no_field_values_are_left_out() {
    assert!(json_to_field_value(&Json::Null).is_none());
    assert!(json_to_field_value(&Json::Object(vec![])).is_none());
    let items = Json::Array(vec![Json::Bool(true), Json::Null, Json::Text("x".to_owned())]);
    match json_to_field_value(&items) {
        Some(FieldValue::Array(a)) => assert_eq!(a.len(), 2),
        other => panic!("got {:?}", other),
    }
}

#[test]
fn request_to_document_with_id() {
    let req = IndexDocumentRequest {
        id: Some("my-doc".into()),
        fields: vec![("title".into(), Json::Text("test".into()))],
    };
    let doc = request_to_document(req);
    assert_eq!(doc.id, "my-doc");
    match doc.get_field("title") {
        Some(FieldValue::Text(t)) => assert_eq!(t, "test"),
        other => panic!("got {:?}", other),
    }
}

#[test]
fn request_to_document_generates_id() {
    let req = IndexDocumentRequest {
        id: None,
        fields: vec![],
    };
    let doc = request_to_document(req);
    assert!(!doc.id.is_empty());
}

#[test]
fn generated_ids_are_uuids() {
    let make = || request_to_document(IndexDocumentRequest { id: None, fields: vec![] }).id;
    let id = make();
    assert_eq!(id.len(), 36);
    let hyphens: Vec<usize> = id.match_indices('-').map(|(i, _)| i).collect();
    assert_eq!(hyphens, vec![8, 13, 18, 23]);
    assert_ne!(id, make());
    let req = IndexDocumentRequest { id: None, fields: vec![] };
    assert_eq!(request_to_document_with(&req, "given").id, "given");
}

#[test]
fn later_members_of_an_object_count() {
    let members = vec![
        ("a".to_owned(), Json::Bool(false)),
        ("b".to_owned(), Json::Null),
        ("a".to_owned(), Json::Text("last".to_owned())),
    ];
    let doc = build_document("d", &members);
    assert_eq!(doc.fields.len(), 1);
    match doc.get_field("a") {
        Some(FieldValue::Text(t)) => assert_eq!(t, "last"),
        other => panic!("got {:?}", other),
    }
    match fields_to_value(&doc.fields) {
        Json::Object(m) => assert_eq!(m.len(), 1),
        other => panic!("got {:?}", other),
    }
}

#[test]
fn search_request_parse() {
    let req = search_request(
        r#"{
        "query": {"match": {"title": {"query": "hello"}}},
        "size": 20,
        "from": 5
    }"#,
    );
    assert_eq!(req.size, Some(20));
    assert_eq!(req.from, Some(5));
}

#[test]
fn search_requests_say_how_to_arrange() {
    let mut req = search_request(r#"{"query": {"term": {"status": "active"}}, "from": 5}"#);
    let sort = |field: &str, order: &str| SortField { field: field.into(), order: order.into() };
    req.sort = Some(vec![sort("price", "asc"), sort("_score", "desc"), sort("name", "up")]);
    let options = req.to_search_options();
    assert_eq!((options.from, options.size), (5, 10));
    assert_eq!(options.sort[0].field, "price");
    let orders: Vec<SortOrder> = options.sort.iter().map(|c| c.order).collect();
    assert_eq!(orders, vec![SortOrder::Asc, SortOrder::Desc, SortOrder::Desc]);
    req.size = None;
    req.sort = None;
    let options = req.to_search_options();
    assert_eq!((options.size, options.sort.len()), (10, 0));
    assert!(options.search_after.is_none() && options.collapse.is_none());
}

#[test]
fn search_request_defaults() {
    let req = search_request(r#"{"query": {"term": {"status": "active"}}}"#);
    assert_eq!(req.size, Some(10));
    assert_eq!(req.from, None);
    assert!(req.highlight.is_none());
    assert!(req.sort.is_none());
}

// ---------------------------------------------------------------------------
// Bulk requests and reports
// ---------------------------------------------------------------------------

#[test]
fn bulk_action_index_parse() {
    match parse_action(r#"{"index": {"_id": "doc-1"}}"#) {
        BulkAction::Index(meta) => assert_eq!(meta.id, Some("doc-1".into())),
        _ => panic!("expected Index"),
    }
}

#[test]
fn bulk_action_delete_parse() {
    match parse_action(r#"{"delete": {"_id": "doc-2"}}"#) {
        BulkAction::Delete(meta) => assert_eq!(meta.id, Some("doc-2".into())),
        _ => panic!("expected Delete"),
    }
}

#[test]
fn reports_hold_what_they_were_given() {
    let resp = BulkResponse {
        took: 100,
        errors: false,
        items: vec![BulkItem {
            action: "index".into(),
            id: "d1".into(),
            status: 201,
            error: None,
        }],
    };
    assert_eq!((resp.took, resp.items[0].id.as_str()), (100, "d1"));
    let resp = ClusterHealthResponse {
        status: "green".into(),
        number_of_nodes: 3,
        leader_id: Some(1),
        is_leader: true,
    };
    assert_eq!((resp.status.as_str(), resp.number_of_nodes), ("green", 3));
    let resp = CollectionInfoResponse {
        name: "articles".into(),
        doc_count: 1000,
        mapping: None,
        settings: "{}".into(),
    };
    assert_eq!((resp.name.as_str(), resp.doc_count), ("articles", 1000));
}

#[test]
fn ndjson_bulk_request_parse() {
    let ndjson = r#"{"index": {"_id": "1"}}
{"title": "doc one", "count": 10}
{"index": {"_id": "2"}}
{"title": "doc two", "count": 20}
{"delete": {"_id": "3"}}
"#;
    let lines = msearchdb::text::nonblank_lines(ndjson);
    assert_eq!(lines.len(), 5);

    let action1 = parse_action(&lines[0]);
    assert!(matches!(action1, BulkAction::Index(_)));

    let action2 = parse_action(&lines[2]);
    assert!(matches!(action2, BulkAction::Index(_)));

    let action3 = parse_action(&lines[4]);
    assert!(matches!(action3, BulkAction::Delete(_)));
}

// ---------------------------------------------------------------------------
// Errors
// ---------------------------------------------------------------------------

#[test]
fn error_response_not_found() {
    let err = ErrorResponse::not_found("document 'x' not found");
    assert_eq!(err.status, 404);
    assert_eq!(err.error.error_type, "not_found");
    assert_eq!(err.error.reason, "document 'x' not found");
}

#[test]
fn error_response_bad_request() {
    let err = ErrorResponse::bad_request("invalid JSON");
    assert_eq!(err.status, 400);
    assert_eq!(err.error.error_type, "invalid_input");
}

#[test]
fn error_response_internal() {
    let err = ErrorResponse::internal("disk failure");
    assert_eq!(err.status, 500);
}

#[test]
fn error_response_unauthorized() {
    let err = ErrorResponse::unauthorized("invalid API key");
    assert_eq!(err.status, 401);
}

#[test]
fn error_response_redirect() {
    let err = ErrorResponse::redirect("forward to leader");
    assert_eq!(err.status, 307);
}

#[test]
fn not_found_maps_to_404() {
    let (status, resp) = db_error_to_response(DbError::NotFound("gone".into()));
    assert_eq!(status, 404);
    assert_eq!(resp.status, 404);
    assert_eq!(resp.error.error_type, "not_found");
}

#[test]
fn invalid_input_maps_to_400() {
    let (status, resp) = db_error_to_response(DbError::InvalidInput("bad".into()));
    assert_eq!(status, 400);
    assert_eq!(resp.status, 400);
}

#[test]
fn serialization_error_maps_to_400() {
    let (status, resp) = db_error_to_response(DbError::SerializationError("parse fail".into()));
    assert_eq!(status, 400);
    assert_eq!(resp.status, 400);
}

#[test]
fn consensus_forward_maps_to_307() {
    let (status, resp) = db_error_to_response(DbError::ConsensusError(
        "not leader; forward to node-2".into(),
    ));
    assert_eq!(status, 307);
    assert_eq!(resp.status, 307);
}

#[test]
fn consensus_other_maps_to_503() {
    let (status, resp) = db_error_to_response(DbError::ConsensusError("split brain".into()));
    assert_eq!(status, 503);
    assert_eq!(resp.status, 503);
}

#[test]
fn network_error_maps_to_502() {
    let (status, resp) = db_error_to_response(DbError::NetworkError("timeout".into()));
    assert_eq!(status, 502);
    assert_eq!(resp.status, 502);
}

#[test]
fn storage_error_maps_to_500() {
    let (status, resp) = db_error_to_response(DbError::StorageError("disk full".into()));
    assert_eq!(status, 500);
    assert_eq!(resp.status, 500);
}

#[test]
fn index_error_maps_to_500() {
    let (status, resp) = db_error_to_response(DbError::IndexError("corrupt".into()));
    assert_eq!(status, 500);
    assert_eq!(resp.status, 500);
}

#[test]
fn remaining_errors_have_their_answers() {
    let status = |e: DbError| db_error_to_response(e).0;
    assert_eq!(status(DbError::ConsistencyError("late".into())), 503);
    assert_eq!(status(DbError::SnapshotError("torn".into())), 500);
    assert_eq!(
        status(DbError::SchemaConflict {
            field: "f".into(),
            expected: "text".into(),
            got: "number".into(),
        }),
        500
    );
}
