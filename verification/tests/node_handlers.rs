use msearchdb::index::schema_builder::{FieldConfig, FieldType, SchemaConfig};
use msearchdb::json::{Json, Number};
use msearchdb::model::document::{Document, FieldValue};
use msearchdb::model::error::DbError;
use msearchdb::model::mapping::{FieldMapping, MappedFieldType};
use msearchdb::model::query::{
    AggregationResult, Operator, Query, Score, ScoredDocument, SearchOptions, SearchResult,
    SortClause, SortOrder, SortValue,
};
use msearchdb::node::aliases::{
    create_alias, delete_alias, get_alias, list_aliases, CreateAliasRequest,
};
use msearchdb::node::bulk::{bulk_index, BatchStage, BulkRun, BulkStage, BATCH_SIZE};
use msearchdb::node::collections::{
    create_collection, delete_collection, get_collection, list_collections, refresh_collection,
    CreateStage, DropStage,
};
use msearchdb::node::documents::{
    answer_read, delete_document, get_document, index_document, upsert_document, DeleteStage,
    WriteEvent, WriteStage,
};
use msearchdb::node::dto::{
    BulkAction, BulkActionMeta, BulkResponse, CreateCollectionRequest, GetDocumentParams, IndexDocumentRequest,
    SimpleSearchParams,
};
use msearchdb::node::search::{
    answer_search, options_for_each, resolve_search_targets, simple_search, FanOut,
};
use msearchdb::node::snapshot::{
    answer_create, answer_download, answer_list, answer_restore, archive_name, cannot_open,
    content_disposition, expired, is_meta_file, make_snapshot_id, meta_name, newest_first,
    no_snapshots, restore_snapshot, restore_steps, snapshot_not_found, staging_name, total_docs,
    Background, RestoreRequest, RestoreStep, SnapshotConfig, SnapshotInfo,
};
use msearchdb::node::state::{Catalog, CollectionMeta};
use msearchdb::table::Table;

fn catalog(names: &[&str]) -> Catalog {
    let mut c = Catalog::new();
    for name in names {
        c.collections.insert(
            (*name).to_owned(),
            CollectionMeta {
                name: (*name).to_owned(),
                doc_count: 0,
                mapping: FieldMapping::new(),
                settings: "{}".to_owned(),
            },
        );
    }
    c
}

fn text(s: &str) -> Json {
    Json::Text(s.to_owned())
}

fn count(c: &Catalog, name: &str) -> u64 {
    c.collections.get(&name.to_owned()).unwrap().doc_count
}

// --- collections --------------------------------------------------------------

fn plain() -> CreateCollectionRequest {
    CreateCollectionRequest { schema: None, settings: None }
}

#[test]
fn a_collection_keeps_its_schema_and_settings() {
    let mut c = catalog(&[]);
    let schema = SchemaConfig::new().with_field(FieldConfig::new("title", FieldType::Text));
    let settings = "{\"shards\":3}".to_owned();
    let body = CreateCollectionRequest { schema: Some(schema), settings: Some(settings.clone()) };
    let mut run = create_collection(&c, "products", body).ok().unwrap();
    assert_eq!(run.schema.fields[0].name, "title");
    assert!(run.advance(Ok(()), &mut c).is_none());
    assert!(run.advance(Ok(()), &mut c).is_none());
    let info = run.advance(Ok(()), &mut c).unwrap().unwrap();
    assert_eq!((info.mapping, info.settings.as_str()), (None, settings.as_str()));
    let mut mapping = FieldMapping::new();
    mapping.register_field("title", MappedFieldType::Text).unwrap();
    c.credit("products", 2, Some(mapping));
    c.debit("products");
    let info = get_collection(&c, "products").unwrap();
    assert_eq!((info.doc_count, info.settings), (1, settings));
    assert_eq!(info.mapping, Some(vec![("title".to_owned(), MappedFieldType::Text)]));
}

#[test]
fn a_collection_is_created_step_by_step() {
    let mut c = catalog(&[]);
    let mut run = create_collection(&c, "products", plain()).ok().unwrap();
    assert!(run.advance(Ok(()), &mut c).is_none());
    assert_eq!(run.stage, CreateStage::CreateStorage);
    assert!(run.advance(Ok(()), &mut c).is_none());
    assert_eq!(run.stage, CreateStage::CreateIndex);
    let info = run.advance(Ok(()), &mut c).unwrap().unwrap();
    assert_eq!((info.name.as_str(), info.doc_count), ("products", 0));
    assert!(c.has_collection("products"));
    assert_eq!(get_collection(&c, "products").unwrap().doc_count, 0);
    assert_eq!(list_collections(&c).len(), 1);
    let again = create_collection(&c, "products", plain());
    match again {
        Ok(_) => panic!("created twice"),
        Err(e) => {
            assert_eq!(e.status, 409);
            assert_eq!(e.error.reason, "collection 'products' already exists");
        }
    }
}

#[test]
fn a_collection_that_fails_is_not_created() {
    let mut c = catalog(&[]);
    let mut run = create_collection(&c, "products", plain()).ok().unwrap();
    assert!(run.advance(Ok(()), &mut c).is_none());
    let failed = run.advance(Err(DbError::StorageError("disk".to_owned())), &mut c);
    assert_eq!(failed.unwrap().unwrap_err().status, 500);
    assert_eq!(run.stage, CreateStage::Done);
    assert!(!c.has_collection("products"));
}

#[test]
fn a_collection_is_deleted() {
    let mut c = catalog(&["products"]);
    let mut run = delete_collection(&c, "products").ok().unwrap();
    assert_eq!(run.stage, DropStage::Propose);
    assert!(run.advance(Ok(()), &mut c).is_none());
    assert_eq!(run.stage, DropStage::DropStorage);
    let broken = || Err(DbError::StorageError("disk".to_owned()));
    assert!(run.advance(broken(), &mut c).is_none());
    assert_eq!(run.stage, DropStage::DropIndex);
    assert!(c.has_collection("products"));
    assert!(run.advance(broken(), &mut c).unwrap().is_ok());
    assert_eq!(run.stage, DropStage::Done);
    assert!(!c.has_collection("products"));
    assert_eq!(delete_collection(&c, "products").err().unwrap().status, 404);
    assert_eq!(get_collection(&c, "products").unwrap_err().status, 404);
}

#[test]
fn a_refused_deletion_changes_nothing() {
    let mut c = catalog(&["products"]);
    let no_leader = || Err(DbError::ConsensusError("not leader".to_owned()));
    let mut run = delete_collection(&c, "products").ok().unwrap();
    let refused = run.advance(no_leader(), &mut c);
    assert_eq!(refused.unwrap().unwrap_err().status, 307);
    assert_eq!(run.stage, DropStage::Done);
    assert!(c.has_collection("products"));

    c.credit("products", 2, None);
    let mut run = delete_document(&c, "products", "1").ok().unwrap();
    assert_eq!(run.advance(no_leader(), &mut c).unwrap().unwrap_err().status, 307);
    assert_eq!(run.stage, DeleteStage::Done);
    assert_eq!(count(&c, "products"), 2);
}

#[test]
fn a_refresh_is_acknowledged_once_it_is_committed() {
    let c = catalog(&["products"]);
    let a = refresh_collection(&c, "products").ok().unwrap().finish(Ok(())).unwrap();
    assert!(a.acknowledged);
    assert_eq!(a.collection, "products");
    let lost = refresh_collection(&c, "products")
        .ok()
        .unwrap()
        .finish(Err(DbError::IndexError("disk".to_owned())));
    assert_eq!(lost.unwrap_err().status, 500);
    let missing = refresh_collection(&c, "orders").err().unwrap();
    assert_eq!(missing.error.reason, "collection 'orders' not found");
}

// --- aliases ------------------------------------------------------------------

fn targets(names: &[&str]) -> CreateAliasRequest {
    CreateAliasRequest { collections: names.iter().map(|n| (*n).to_owned()).collect() }
}

#[test]
fn an_alias_lives() {
    let mut c = catalog(&["a", "b"]);
    let run = create_alias(&c, "all", &targets(&["a", "b"])).ok().unwrap();
    let info = run.finish(Ok(()), &mut c).unwrap();
    assert_eq!(info.collections, vec!["a", "b"]);
    assert_eq!(get_alias(&c, "all").unwrap().collections, vec!["a", "b"]);
    assert_eq!(list_aliases(&c).len(), 1);
    let run = delete_alias(&c, "all").ok().unwrap();
    assert!(run.finish(Ok(()), &mut c).is_ok());
    assert_eq!(get_alias(&c, "all").unwrap_err().status, 404);
    assert_eq!(delete_alias(&c, "all").err().unwrap().status, 404);
}

#[test]
fn an_alias_is_refused() {
    let mut c = catalog(&["a"]);
    let e = create_alias(&c, "all", &targets(&["a", "missing"])).err().unwrap();
    assert_eq!((e.status, e.error.reason.as_str()), (404, "target collection 'missing' not found"));
    let e = create_alias(&c, "all", &targets(&[])).err().unwrap();
    assert_eq!(
        (e.status, e.error.reason.as_str()),
        (400, "alias must point to at least one collection")
    );
    c.aliases.insert("all".to_owned(), vec!["a".to_owned()]);
    let e = create_alias(&c, "all", &targets(&["a"])).err().unwrap();
    assert_eq!((e.status, e.error.reason.as_str()), (409, "alias 'all' already exists"));
}

// --- documents ----------------------------------------------------------------

fn request(id: Option<&str>, title: &str) -> IndexDocumentRequest {
    IndexDocumentRequest {
        id: id.map(|i| i.to_owned()),
        fields: vec![("title".to_owned(), text(title))],
    }
}

#[test]
fn a_document_is_written_step_by_step() {
    let mut c = catalog(&["products"]);
    let mut run = index_document(&c, "products", request(Some("1"), "lamp")).ok().unwrap();
    assert!(run.advance(WriteEvent::Proposed(Ok(())), &mut c).is_none());
    assert_eq!(run.stage, WriteStage::Store);
    assert!(run.advance(WriteEvent::Stored(Ok(3)), &mut c).is_none());
    assert_eq!(run.stage, WriteStage::Index);
    let mut mapping = FieldMapping::new();
    mapping.register_field("title", MappedFieldType::Text).unwrap();
    assert!(run.advance(WriteEvent::Indexed(Ok(mapping)), &mut c).is_none());
    assert_eq!(run.stage, WriteStage::Commit);
    let (status, resp) = run.advance(WriteEvent::Committed, &mut c).unwrap().unwrap();
    assert_eq!(status, 201);
    assert_eq!((resp.id.as_str(), resp.result.as_str(), resp.version), ("1", "created", 3));
    assert_eq!(count(&c, "products"), 1);
    let mapping = c.mapping_of("products");
    assert_eq!(mapping.get_field_type("title"), Some(MappedFieldType::Text));
}

#[test]
fn an_upsert_unindexes_first() {
    let mut c = catalog(&["products"]);
    let mut run = upsert_document(&c, "products", "1", &request(None, "lamp")).ok().unwrap();
    assert_eq!(run.document.id, "1");
    assert!(run.advance(WriteEvent::Proposed(Ok(())), &mut c).is_none());
    assert!(run.advance(WriteEvent::Stored(Ok(3)), &mut c).is_none());
    assert_eq!(run.stage, WriteStage::Unindex);
    assert!(run.advance(WriteEvent::Unindexed, &mut c).is_none());
    assert_eq!(run.stage, WriteStage::Index);
    assert!(run.advance(WriteEvent::Indexed(Ok(FieldMapping::new())), &mut c).is_none());
    let (status, resp) = run.advance(WriteEvent::Committed, &mut c).unwrap().unwrap();
    assert_eq!((status, resp.result.as_str()), (200, "updated"));
}

#[test]
fn a_write_that_fails_counts_nothing() {
    let mut c = catalog(&["products"]);
    let mut run = index_document(&c, "products", request(None, "lamp")).ok().unwrap();
    assert_eq!(run.document.id.len(), 36);
    let err = DbError::ConsensusError("forward to leader".to_owned());
    let e = run.advance(WriteEvent::Proposed(Err(err)), &mut c).unwrap().unwrap_err();
    assert_eq!(e.status, 307);
    assert_eq!(run.stage, WriteStage::Done);
    assert_eq!(count(&c, "products"), 0);
    assert_eq!(index_document(&c, "orders", request(None, "x")).err().unwrap().status, 404);
}

#[test]
fn a_document_is_read() {
    let c = catalog(&["products"]);
    let params = GetDocumentParams { consistency: Some("one".to_owned()) };
    let level = get_document(&c, "products", &params).unwrap();
    let doc = Document::new("1").with_field("title", FieldValue::Text("lamp".to_owned()));
    let resp = answer_read("1", level, 3, Ok((doc, 7))).unwrap();
    assert_eq!((resp.id.as_str(), resp.version, resp.found), ("1", 7, true));
    match &resp.source {
        Json::Object(members) => {
            assert_eq!(members.len(), 1);
            assert!(matches!(&members[0].1, Json::Text(t) if t == "lamp"));
        }
        other => panic!("{:?}", other),
    }
    let missing = answer_read("9", level, 3, Err(DbError::NotFound("9".to_owned())));
    let e = missing.unwrap_err();
    assert_eq!((e.status, e.error.reason.as_str()), (404, "document '9' not found"));
    let broken = answer_read("9", level, 3, Err(DbError::StorageError("disk".to_owned())));
    assert_eq!(broken.unwrap_err().status, 500);
}

#[test]
fn a_document_is_deleted() {
    let mut c = catalog(&["products"]);
    c.credit("products", 2, None);
    let mut run = delete_document(&c, "products", "1").ok().unwrap();
    let missing = || Err(DbError::NotFound("1".to_owned()));
    let mut stages = vec![run.stage];
    assert!(run.advance(Ok(()), &mut c).is_none());
    stages.push(run.stage);
    assert!(run.advance(missing(), &mut c).is_none());
    stages.push(run.stage);
    assert!(run.advance(missing(), &mut c).is_none());
    stages.push(run.stage);
    assert_eq!(
        stages,
        vec![DeleteStage::Propose, DeleteStage::Unstore, DeleteStage::Unindex, DeleteStage::Commit]
    );
    assert_eq!(count(&c, "products"), 2);
    let resp = run.advance(Ok(()), &mut c).unwrap().unwrap();
    assert_eq!((resp.id.as_str(), resp.result.as_str()), ("1", "deleted"));
    assert_eq!(count(&c, "products"), 1);
    c.debit("products");
    c.debit("products");
    assert_eq!(count(&c, "products"), 0);
}

// --- bulk requests --------------------------------------------------------------

fn index_action(id: Option<&str>) -> BulkAction {
    BulkAction::Index(BulkActionMeta { id: id.map(|i| i.to_owned()) })
}

fn delete_action(id: &str) -> BulkAction {
    BulkAction::Delete(BulkActionMeta { id: Some(id.to_owned()) })
}

/// Lines are `index ID`, `delete ID`, `doc TEXT`; anything else is unreadable.
fn run_bulk(run: &mut BulkRun, c: &mut Catalog, applied: usize) -> BulkResponse {
    loop {
        match run.stage {
            BulkStage::Action => {
                let line = run.line().to_owned();
                let parsed = match line.split_once(' ') {
                    Some(("index", id)) => Ok(index_action(Some(id))),
                    Some(("delete", id)) => Ok(delete_action(id)),
                    _ => Err("what?".to_owned()),
                };
                run.on_action(parsed);
            }
            BulkStage::Body => {
                let line = run.line().to_owned();
                match line.strip_prefix("doc ") {
                    Some(t) => run.on_body(Ok(vec![("title".to_owned(), text(t))])),
                    None => run.on_body(Err("no object".to_owned())),
                }
            }
            BulkStage::Batch => match run.batch.stage {
                BatchStage::Propose => {
                    let n = run.batch.documents.len();
                    assert!(n <= BATCH_SIZE);
                    run.on_batch_proposed(Ok(if applied < n { applied } else { n }), c);
                }
                BatchStage::Store => run.on_batch_stored(Ok(()), c),
                BatchStage::Index => {
                    let mapping = run.batch.mapping.clone();
                    run.on_batch_indexed(Ok(mapping), c);
                }
                BatchStage::Done => unreachable!(),
            },
            BulkStage::Delete => match run.delete_id() {
                "kept" => run.on_delete(Err("refused".to_owned())),
                _ => run.on_delete(Ok(())),
            },
            BulkStage::Unstore => {
                assert_ne!(run.delete_id(), "kept");
                run.on_unstored();
            }
            BulkStage::Unindex => run.on_unindexed(),
            BulkStage::Commit => return run.on_committed(3, c),
            BulkStage::Done => unreachable!(),
        }
    }
}

#[test]
fn a_bulk_request_is_worked_off() {
    let mut c = catalog(&["products"]);
    let body = "index 1\ndoc lamp\n\nindex 2\ndoc table\ndelete 9\nnonsense\n";
    let mut run = bulk_index(&c, "products", body).ok().unwrap();
    let resp = run_bulk(&mut run, &mut c, BATCH_SIZE);
    assert_eq!(resp.took, 3);
    assert!(resp.errors);
    assert_eq!(resp.items.len(), 4);
    let mut seen: Vec<(String, String, u16)> =
        resp.items.iter().map(|i| (i.action.clone(), i.id.clone(), i.status)).collect();
    seen.sort();
    let own = |a: &str, i: &str, s: u16| (a.to_owned(), i.to_owned(), s);
    assert_eq!(
        seen,
        vec![own("delete", "9", 200), own("index", "1", 201), own("index", "2", 201), own("unknown", "", 400)]
    );
    assert_eq!(count(&c, "products"), 2);
}

#[test]
fn document_lines_are_read_as_objects() {
    let c = catalog(&["products"]);
    let mut lines = vec![r#"{"title":"Lamp","price":19.5,"tags":["a",1],"on":true,"x":null}"#];
    lines.push(r#"{"a":1,"a":2}"#);
    lines.push("[1]");
    lines.push(r#"{"title":"#);
    let body: Vec<String> = lines.iter().map(|l| format!("index\n{}", l)).collect();
    let mut run = bulk_index(&c, "products", &body.join("\n")).ok().unwrap();
    while run.stage == BulkStage::Action {
        run.on_action(Ok(index_action(Some("1"))));
        assert_eq!(run.stage, BulkStage::Body);
        run.read_body();
    }
    let docs = &run.batch.documents;
    assert_eq!(docs.len(), 2);
    let number = |n: f64| FieldValue::Number(Number { bits: n.to_bits() });
    assert_eq!(docs[0].get_field("title"), Some(&FieldValue::Text("Lamp".to_owned())));
    assert_eq!(docs[0].get_field("price"), Some(&number(19.5)));
    assert_eq!(docs[0].get_field("on"), Some(&FieldValue::Boolean(true)));
    assert_eq!(
        docs[0].get_field("tags"),
        Some(&FieldValue::Array(vec![FieldValue::Text("a".to_owned()), number(1.0)]))
    );
    assert_eq!(docs[1].get_field("a"), Some(&number(2.0)));
    // What is no object is told as serde_json tells it.
    let message = |line: &str| {
        serde_json::from_str::<std::collections::HashMap<String, serde_json::Value>>(line)
            .unwrap_err()
            .to_string()
    };
    assert_eq!(run.items.len(), 2);
    for (item, line) in run.items.iter().zip(&lines[2..]) {
        assert_eq!(item.status, 400);
        let expected = format!("invalid document body: {}", message(line));
        assert_eq!(item.error.as_deref(), Some(expected.as_str()));
    }
}

#[test]
fn refused_bulk_deletions_leave_the_document() {
    let mut c = catalog(&["products"]);
    let mut run = bulk_index(&c, "products", "delete kept\ndelete gone\n").ok().unwrap();
    let resp = run_bulk(&mut run, &mut c, BATCH_SIZE);
    let seen: Vec<(&str, u16)> = resp.items.iter().map(|i| (i.id.as_str(), i.status)).collect();
    assert_eq!(seen, vec![("kept", 500), ("gone", 200)]);
    assert_eq!(resp.items[0].error.as_deref(), Some("refused"));
}

#[test]
fn a_large_bulk_request_goes_in_batches() {
    let mut c = catalog(&["products"]);
    let mut body = String::new();
    for i in 0..(2 * BATCH_SIZE + 50) {
        body.push_str(&format!("index {}\ndoc t\n", i));
    }
    let mut run = bulk_index(&c, "products", &body).ok().unwrap();
    let resp = run_bulk(&mut run, &mut c, BATCH_SIZE);
    assert!(!resp.errors);
    assert_eq!(resp.items.len(), 2 * BATCH_SIZE + 50);
    assert_eq!(count(&c, "products"), 2 * BATCH_SIZE as u64 + 50);
}

#[test]
fn bulk_failures_are_reported_one_by_one() {
    let mut c = catalog(&["products"]);
    let mut run = bulk_index(&c, "products", "index 1\nbroken\nindex 2\n").ok().unwrap();
    let resp = run_bulk(&mut run, &mut c, BATCH_SIZE);
    assert!(resp.errors);
    assert_eq!(resp.items.len(), 2);
    assert_eq!(resp.items[0].error.as_deref(), Some("invalid document body: no object"));
    assert_eq!(resp.items[1].status, 400);
    assert_eq!(count(&c, "products"), 0);
    assert_eq!(bulk_index(&c, "orders", "").err().unwrap().status, 404);
}

// --- search -------------------------------------------------------------------

fn scored(id: &str, score: f32) -> ScoredDocument {
    let score = Score { bits: score.to_bits() };
    ScoredDocument { document: Document::new(id), score, sort: Vec::new() }
}

#[test]
fn search_targets_are_resolved() {
    let mut c = catalog(&["a", "b"]);
    c.aliases.insert("all".to_owned(), vec!["a".to_owned(), "b".to_owned()]);
    c.aliases.insert("none".to_owned(), vec![]);
    assert_eq!(resolve_search_targets(&c, "a").unwrap(), vec!["a"]);
    assert_eq!(resolve_search_targets(&c, "all").unwrap(), vec!["a", "b"]);
    assert_eq!(resolve_search_targets(&c, "none").unwrap_err().status, 400);
    assert_eq!(resolve_search_targets(&c, "x").unwrap_err().status, 404);
}

fn found(documents: Vec<ScoredDocument>, total: u64, metric: u64) -> SearchResult {
    let mut aggregations = Table::new();
    let value = Some(Number { bits: metric });
    aggregations.insert("m".to_owned(), AggregationResult::Metric { value });
    SearchResult { documents, total, took_ms: 1, aggregations }
}

fn top(size: usize) -> SearchOptions {
    SearchOptions { from: 0, size, sort: vec![], search_after: None, collapse: None }
}

#[test]
fn results_of_several_collections_are_merged() {
    let mut f = FanOut::new(vec!["a".to_owned(), "b".to_owned()]);
    assert_eq!(f.next_target().unwrap(), "a");
    assert!(f.on_result(Ok(found(vec![scored("1", 0.5), scored("3", 0.1)], 2, 7))).is_ok());
    assert_eq!(f.next_target().unwrap(), "b");
    assert!(f.on_result(Ok(found(vec![scored("2", 2.0)], 4, 8))).is_ok());
    assert!(f.next_target().is_none());
    let result = f.finish(&top(2), 9);
    assert_eq!((result.total, result.took_ms), (6, 9));
    let last = AggregationResult::Metric { value: Some(Number { bits: 8 }) };
    assert_eq!(result.aggregations.get(&"m".to_owned()), Some(&last));
    let answer = answer_search(result, &Some("all".to_owned()));
    let ids: Vec<String> = answer.response.hits.hits.iter().map(|h| h.id.clone()).collect();
    assert_eq!(ids, vec!["2", "1"]);
    assert_eq!(answer.response.hits.total.value, 6);
    assert!(!answer.response.timed_out);
}

#[test]
fn sorted_results_of_several_collections_are_merged_in_order() {
    let priced = |id: &str, price: f64| ScoredDocument {
        sort: vec![SortValue::Number(Number { bits: price.to_bits() })],
        ..scored(id, 1.0)
    };
    let sort = vec![SortClause { field: "price".to_owned(), order: SortOrder::Asc }];
    let options = SearchOptions { from: 1, sort, ..top(2) };
    let each = options_for_each(&options);
    assert_eq!((each.from, each.size, each.sort.len()), (0, 3, 1));
    let mut f = FanOut::new(vec!["a".to_owned(), "b".to_owned()]);
    assert!(f.on_result(Ok(found(vec![priced("1", -1.0), priced("4", 9.0)], 2, 0))).is_ok());
    assert!(f.on_result(Ok(found(vec![priced("2", 0.5), priced("3", 3.0)], 2, 0))).is_ok());
    let result = f.finish(&options, 1);
    let ids: Vec<&str> = result.documents.iter().map(|d| d.document.id.as_str()).collect();
    assert_eq!(ids, vec!["2", "3"]);
}

#[test]
fn a_collection_that_fails_fails_the_search() {
    let mut f = FanOut::new(vec!["a".to_owned()]);
    let e = f.on_result(Err(DbError::IndexError("broken".to_owned()))).unwrap_err();
    assert_eq!(e.status, 500);
}

#[test]
fn a_simple_search_looks_into_all_text() {
    let p = SimpleSearchParams { q: "red lamp".to_owned(), size: 4, consistency: None };
    let (query, options) = simple_search(&p);
    assert_eq!((options.from, options.size, options.sort.len()), (0, 4, 0));
    match query {
        Query::FullText(q) => {
            assert_eq!((q.field.as_str(), q.query.as_str()), ("_body", "red lamp"));
            assert_eq!(q.operator, Operator::Or);
        }
        other => panic!("{:?}", other),
    }
}

// --- snapshots ----------------------------------------------------------------

fn snapshot(id: &str, created_at: u64) -> SnapshotInfo {
    SnapshotInfo {
        id: id.to_owned(),
        term: 2,
        last_log_index: 50,
        size_bytes: 1024,
        doc_count: 7,
        created_at,
    }
}

#[test]
fn snapshots_have_their_names() {
    let id = make_snapshot_id(2, 50, 1_700_000_000);
    assert_eq!(id, "2-50-1700000000");
    assert_eq!(archive_name(&id), "2-50-1700000000.snap");
    assert_eq!(meta_name(&id), "2-50-1700000000.meta.json");
    assert_eq!(staging_name(&id), "staging-2-50-1700000000");
    assert!(is_meta_file(&meta_name(&id)));
    assert!(!is_meta_file(&archive_name(&id)));
    assert_eq!(content_disposition("x"), "attachment; filename=\"x.snap\"");
}

#[test]
fn old_snapshots_are_rotated_out() {
    let mut list = vec![snapshot("a", 1), snapshot("d", 4), snapshot("b", 2), snapshot("c", 3)];
    newest_first(&mut list);
    let ids: Vec<String> = list.iter().map(|s| s.id.clone()).collect();
    assert_eq!(ids, vec!["d", "c", "b", "a"]);
    assert_eq!(expired(&list, &SnapshotConfig::default()), vec!["a"]);
    assert!(expired(&list, &SnapshotConfig { max_snapshots: 4 }).is_empty());
}

#[test]
fn a_restore_replaces_what_the_archive_holds() {
    assert_eq!(
        restore_steps(true, true, true, false),
        vec![RestoreStep::RemoveStorage, RestoreStep::MoveStorage, RestoreStep::MoveIndex]
    );
    assert!(restore_steps(false, true, false, true).is_empty());
}

#[test]
fn snapshot_requests_are_answered() {
    let made = answer_create(Background::Finished(Ok(snapshot("x", 1)))).unwrap();
    assert!(made.success);
    assert_eq!((made.snapshot_id.as_str(), made.doc_count), ("x", 7));
    let e = answer_create(Background::Lost("cancelled".to_owned())).unwrap_err();
    assert_eq!((e.status, e.error.as_str()), (500, "task join error: cancelled"));
    assert_eq!(answer_list(Background::Finished(Ok(vec![snapshot("x", 1)]))).unwrap().len(), 1);
    let gone = answer_download(Background::Finished(Err(snapshot_not_found("x")))).unwrap_err();
    assert_eq!(gone.status, 404);
    assert!(gone.error.contains("snapshot 'x' not found"));
    assert_eq!(cannot_open("denied").error, "failed to open snapshot: denied");
    assert_eq!(no_snapshots().status, 503);
    let unnamed = restore_snapshot(RestoreRequest { snapshot_id: None }).unwrap_err();
    assert_eq!((unnamed.status, unnamed.error.as_str()), (400, "snapshot_id is required"));
    let named = restore_snapshot(RestoreRequest { snapshot_id: Some("x".to_owned()) });
    assert_eq!(named.unwrap(), "x");
    assert!(answer_restore(Background::Finished(Ok(()))).unwrap().success);
}

#[test]
fn documents_are_counted_over_all_collections() {
    let mut c = catalog(&["a", "b"]);
    c.credit("a", 3, None);
    c.credit("b", 4, None);
    assert_eq!(total_docs(&c), 7);
    assert_eq!(total_docs(&Catalog::new()), 0);
}

#[test]
fn numbers_keep_their_bits() {
    assert!(Number { bits: 1.5f64.to_bits() }.is_finite());
    assert!(!Number { bits: f64::NAN.to_bits() }.is_finite());
    assert!(!Number { bits: f64::INFINITY.to_bits() }.is_finite());
}
