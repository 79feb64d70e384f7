use std::ops::Bound;
use std::sync::{Arc, Mutex};

use tantivy::collector::{Count, TopDocs};
use tantivy::query::{
    AllQuery, BooleanQuery, Occur as TantivyOccur, Query as TantivyQuery, QueryParser,
    RangeQuery as TantivyRange, RegexQuery, TermQuery as TantivyTerm,
};
use tantivy::schema::{Field, IndexRecordOption, OwnedValue, Schema, Type};
use tantivy::snippet::SnippetGenerator;
use tantivy::tokenizer::{
    LowerCaser, NgramTokenizer, RawTokenizer, RemoveLongFilter, SimpleTokenizer, StopWordFilter,
    TextAnalyzer, Token as TantivyToken, TokenStream, Tokenizer as TantivyTokenizer,
};
use tantivy::{Index, IndexReader, IndexWriter, ReloadPolicy, TantivyDocument, Term};

use msearchdb::index::analyzer::{
    analyzers, byte_tokens, token_stream, AnalyzerSpec, JiebaTokenStream, Tokenizer,
};
use msearchdb::index::collection_index::{
    build_initial_schema, build_schema_from_mapping, can_make_a_schema, register_fields,
    CollectionIndexManager, Opening, WRITER_HEAP_BYTES,
};
use msearchdb::index::entries::{
    build_tantivy_doc, number_of, reconstruct_document, to_tantivy_doc, Entry, EntryValue, Found,
    Hit,
};
use msearchdb::index::highlighting::{
    extract_query_text, fragments, highlight, HighlightConfig, HighlightResult, Request,
};
use msearchdb::index::queries::{
    extract_fuzzy_params, translate_query, wildcard_regex, Occur, Plan,
};
use msearchdb::index::query_builder::QueryBuilder;
use msearchdb::index::schema_builder::{DynamicSchemaBuilder, FieldConfig, FieldType, SchemaConfig};
use msearchdb::index::tantivy_index::TantivyIndex;
use msearchdb::json::Number;
use msearchdb::model::document::{Document, FieldValue};
use msearchdb::model::error::DbError;
use msearchdb::model::mapping::{FieldMapping, MappedFieldType};
use msearchdb::model::query::{
    AggregationResult, Aggregations, BoolQuery, Bucket, FullTextQuery, Operator, Query, RangeQuery,
    Score, ScoredDocument, SearchOptions, SearchResult, SortClause, SortOrder, SortValue, TermQuery,
};
use msearchdb::table::Table;

// --- the engine ----------------------------------------------------------------

#[derive(Clone)]
struct Words;

struct WordStream {
    words: JiebaTokenStream,
    token: TantivyToken,
}

impl TantivyTokenizer for Words {
    type TokenStream<'a> = WordStream;

    fn token_stream<'a>(&'a mut self, text: &'a str) -> WordStream {
        WordStream { words: token_stream(text), token: TantivyToken::default() }
    }
}

impl TokenStream for WordStream {
    fn advance(&mut self) -> bool {
        let more = self.words.advance();
        if more {
            self.token.text = self.words.token.text.clone();
            self.token.offset_from = self.words.token.offset_from;
            self.token.offset_to = self.words.token.offset_to;
            self.token.position = self.words.token.position;
        }
        more
    }

    fn token(&self) -> &TantivyToken {
        &self.token
    }

    fn token_mut(&mut self) -> &mut TantivyToken {
        &mut self.token
    }
}

fn analyzer(spec: &AnalyzerSpec) -> TextAnalyzer {
    let mut builder = match spec.tokenizer {
        Tokenizer::Simple => TextAnalyzer::builder(SimpleTokenizer::default()).dynamic(),
        Tokenizer::Raw => TextAnalyzer::builder(RawTokenizer::default()).dynamic(),
        Tokenizer::Ngram { min, max } => {
            TextAnalyzer::builder(NgramTokenizer::all_ngrams(min, max).unwrap()).dynamic()
        }
        Tokenizer::Jieba => TextAnalyzer::builder(Words).dynamic(),
    };
    if let Some(limit) = spec.long_limit {
        builder = builder.filter_dynamic(RemoveLongFilter::limit(limit));
    }
    if spec.lowercase {
        builder = builder.filter_dynamic(LowerCaser);
    }
    if !spec.stop_words.is_empty() {
        builder = builder.filter_dynamic(StopWordFilter::remove(spec.stop_words.clone()));
    }
    builder.build()
}

struct Engine {
    index: Index,
    writer: Mutex<IndexWriter>,
    reader: IndexReader,
}

fn broken<T: std::fmt::Display>(e: T) -> DbError {
    DbError::IndexError(format!("{}", e))
}

fn engine(index: Index) -> Result<Engine, DbError> {
    for spec in analyzers() {
        index.tokenizers().register(&spec.name, analyzer(&spec));
    }
    let writer: IndexWriter = index.writer(WRITER_HEAP_BYTES).map_err(broken)?;
    let reader: IndexReader = index
        .reader_builder()
        .reload_policy(ReloadPolicy::OnCommitWithDelay)
        .try_into()
        .map_err(broken)?;
    Ok(Engine { index, writer: Mutex::new(writer), reader })
}

fn open(path: Option<String>, schema: Schema) -> Result<Engine, DbError> {
    match path {
        None => engine(Index::create_in_ram(schema)),
        Some(p) => engine(Index::create_in_dir(p, schema).map_err(broken)?),
    }
}

fn write(e: &Engine, entries: Vec<Entry>) -> Result<(), DbError> {
    let mut doc = TantivyDocument::new();
    for entry in entries {
        let field = Field::from_field_id(entry.field);
        match entry.value {
            EntryValue::Text(t) => doc.add_text(field, t),
            EntryValue::Number(n) => doc.add_f64(field, f64::from_bits(n.bits)),
            EntryValue::Unsigned(n) => doc.add_u64(field, n),
        }
    }
    e.writer.lock().unwrap().add_document(doc).map_err(broken)?;
    Ok(())
}

fn commit(e: &Engine) -> Result<u64, DbError> {
    let stamp = e.writer.lock().unwrap().commit().map_err(broken)?;
    e.reader.reload().map_err(broken)?;
    Ok(stamp)
}

fn delete(e: &Engine, field: u32, id: &str) -> Result<(), DbError> {
    let term = Term::from_field_text(Field::from_field_id(field), id);
    e.writer.lock().unwrap().delete_term(term);
    Ok(())
}

fn write_behind(e: &Engine, _deleted: (), entries: Vec<Entry>) -> Result<(), DbError> {
    write(e, entries)
}

fn put_at_once(idx: &TantivyIndex<Engine>, doc: &Document) {
    let commit_behind = |e: &Engine, _written: ()| commit(e).map(|_| ());
    idx.index_document(doc, 1_700_000_000, delete, write_behind, commit_behind).unwrap();
}

fn tantivy_query(e: &Engine, plan: Plan) -> Result<Box<dyn TantivyQuery>, DbError> {
    Ok(match plan {
        Plan::Words { field, text, conjunction, fuzzy } => {
            let field = Field::from_field_id(field);
            let mut parser = QueryParser::for_index(&e.index, vec![field]);
            if conjunction {
                parser.set_conjunction_by_default();
            }
            if let Some(distance) = fuzzy {
                parser.set_field_fuzzy(field, false, distance, true);
            }
            parser.parse_query(&text).map_err(broken)?
        }
        Plan::Term { field, value } => Box::new(TantivyTerm::new(
            Term::from_field_text(Field::from_field_id(field), &value),
            IndexRecordOption::WithFreqsAndPositions,
        )),
        Plan::Pattern { field, regex } => Box::new(
            RegexQuery::from_pattern(&regex, Field::from_field_id(field)).map_err(broken)?,
        ),
        Plan::Range { field, name, gte, lte } => {
            let bound = |n: Option<Number>| match n {
                Some(n) => Bound::Included(Term::from_field_f64(
                    Field::from_field_id(field),
                    f64::from_bits(n.bits),
                )),
                None => Bound::Unbounded,
            };
            Box::new(TantivyRange::new_term_bounds(name, Type::F64, &bound(gte), &bound(lte)))
        }
        Plan::Bool(clauses) => {
            let mut out: Vec<(TantivyOccur, Box<dyn TantivyQuery>)> = Vec::new();
            for (occur, clause) in clauses {
                let occur = match occur {
                    Occur::Must => TantivyOccur::Must,
                    Occur::Should => TantivyOccur::Should,
                    Occur::MustNot => TantivyOccur::MustNot,
                };
                out.push((occur, tantivy_query(e, clause)?));
            }
            Box::new(BooleanQuery::new(out))
        }
        Plan::All => Box::new(AllQuery),
    })
}

fn run(e: &Engine, plan: Plan, limit: usize) -> Result<Found, DbError> {
    let query = tantivy_query(e, plan)?;
    let searcher = e.reader.searcher();
    let collectors = (TopDocs::with_limit(limit), Count);
    let (top, total) = searcher.search(&*query, &collectors).map_err(broken)?;
    let mut hits = Vec::new();
    for (score, address) in top {
        let doc: TantivyDocument = searcher.doc(address).map_err(broken)?;
        let mut entries = Vec::new();
        for fv in doc.field_values() {
            let value = match fv.value() {
                OwnedValue::Str(t) => EntryValue::Text(t.clone()),
                OwnedValue::F64(n) => EntryValue::Number(num(*n)),
                OwnedValue::U64(n) => EntryValue::Unsigned(*n),
                other => panic!("{:?}", other),
            };
            entries.push(Entry { field: fv.field().field_id(), value });
        }
        hits.push(Hit { score: Score { bits: score.to_bits() }, entries });
    }
    Ok(Found { hits, total: total as u64 })
}

fn snippet(e: &Engine, request: &Request, size: usize) -> Result<String, DbError> {
    let field = Field::from_field_id(request.field);
    let query = QueryParser::for_index(&e.index, vec![field])
        .parse_query(&request.words)
        .map_err(broken)?;
    let mut generator =
        SnippetGenerator::create(&e.reader.searcher(), &*query, field).map_err(broken)?;
    generator.set_max_num_chars(size);
    Ok(generator.snippet(&request.text).to_html())
}

// --- helpers --------------------------------------------------------------------

fn num(n: f64) -> Number {
    Number { bits: n.to_bits() }
}

fn own(s: &str) -> String {
    s.to_owned()
}

fn text(s: &str) -> FieldValue {
    FieldValue::Text(own(s))
}

fn full_text(field: &str, query: &str, operator: Operator) -> Query {
    Query::FullText(FullTextQuery { field: own(field), query: own(query), operator })
}

fn term(field: &str, value: &str) -> Query {
    Query::Term(TermQuery { field: own(field), value: own(value) })
}

fn range(field: &str, gte: f64, lte: f64) -> Query {
    Query::Range(RangeQuery { field: own(field), gte: Some(num(gte)), lte: Some(num(lte)) })
}

type Idx = TantivyIndex<Engine>;

fn index_doc(idx: &Idx, doc: &Document) {
    idx.index_document_sync(doc, 1_700_000_000, write).unwrap();
}

fn commit_all(idx: &Idx) {
    idx.commit(commit).unwrap();
}

fn find(idx: &Idx, query: &Query, limit: usize) -> SearchResult {
    idx.search_sync(query, limit, run).unwrap()
}

fn test_index() -> Idx {
    let config = SchemaConfig::new()
        .with_field(FieldConfig::new("title", FieldType::Text))
        .with_field(FieldConfig::new("body", FieldType::Text))
        .with_field(FieldConfig::new("price", FieldType::Number))
        .with_field(FieldConfig::new("active", FieldType::Boolean));
    TantivyIndex::new_in_ram(&config, open).unwrap()
}

fn test_doc(id: &str, title: &str, body: &str, price: f64) -> Document {
    Document::new(id)
        .with_field("title", text(title))
        .with_field("body", text(body))
        .with_field("price", FieldValue::Number(num(price)))
        .with_field("active", FieldValue::Boolean(true))
}

fn make_index() -> Idx {
    let config = SchemaConfig::new()
        .with_field(FieldConfig::new("title", FieldType::Text))
        .with_field(FieldConfig::new("body", FieldType::Text))
        .with_field(FieldConfig::new("category", FieldType::Text))
        .with_field(FieldConfig::new("price", FieldType::Number))
        .with_field(FieldConfig::new("active", FieldType::Boolean));
    TantivyIndex::new_in_ram(&config, open).unwrap()
}

fn sample_doc(id: &str, title: &str, body: &str, category: &str, price: f64) -> Document {
    Document::new(id)
        .with_field("title", text(title))
        .with_field("body", text(body))
        .with_field("category", text(category))
        .with_field("price", FieldValue::Number(num(price)))
        .with_field("active", FieldValue::Boolean(true))
}

fn index_sample_corpus(idx: &Idx) {
    let docs = vec![
        sample_doc(
            "rust-book",
            "The Rust Programming Language",
            "Learn Rust from scratch with this comprehensive guide to systems programming",
            "programming",
            39.99,
        ),
        sample_doc(
            "go-book",
            "The Go Programming Language",
            "An authoritative guide to writing clear and idiomatic Go programs",
            "programming",
            34.99,
        ),
        sample_doc(
            "distributed-systems",
            "Designing Data-Intensive Applications",
            "The big ideas behind reliable scalable and maintainable distributed systems",
            "architecture",
            45.99,
        ),
        sample_doc(
            "database-internals",
            "Database Internals",
            "A deep dive into how distributed data storage systems work under the hood",
            "database",
            49.99,
        ),
        sample_doc(
            "rust-async",
            "Asynchronous Programming in Rust",
            "Master async await futures and tokio for high performance concurrent Rust applications",
            "programming",
            29.99,
        ),
    ];
    for doc in &docs {
        index_doc(idx, doc);
    }
    commit_all(idx);
}

fn generate_docs(count: usize) -> Vec<Document> {
    let categories = ["programming", "database", "networking", "security", "devops"];
    let adjectives = ["advanced", "practical", "modern", "essential", "comprehensive"];
    let topics = [
        "distributed systems",
        "machine learning",
        "web development",
        "cloud architecture",
        "data engineering",
    ];
    (0..count)
        .map(|i| {
            let cat = categories[i % categories.len()];
            let adj = adjectives[i % adjectives.len()];
            let topic = topics[i % topics.len()];
            Document::new(&format!("doc-{:06}", i))
                .with_field(
                    "title",
                    FieldValue::Text(format!("{} guide to {} number {}", adj, topic, i)),
                )
                .with_field(
                    "body",
                    FieldValue::Text(format!(
                        "This is a {} resource about {}. It covers key concepts and best practices \
                         for building reliable and scalable solutions. Document identifier is {}.",
                        adj, topic, i
                    )),
                )
                .with_field("category", text(cat))
                .with_field("price", FieldValue::Number(num((i as f64) * 0.5 + 10.0)))
                .with_field("active", FieldValue::Boolean(i % 3 != 0))
        })
        .collect()
}

// --- analyzers -------------------------------------------------------------------

fn tokenize(name: &str, text: &str) -> Vec<String> {
    let e = engine(Index::create_in_ram(Schema::builder().build())).unwrap();
    let mut analyzer = e.index.tokenizers().get(name).unwrap();
    let mut tokens = Vec::new();
    let mut stream = analyzer.token_stream(text);
    while stream.advance() {
        tokens.push(stream.token().text.clone());
    }
    tokens
}

#[test]
fn standard_analyzer_lowercases() {
    let tokens = tokenize("standard", "Hello World");
    assert_eq!(tokens, vec!["hello", "world"]);
}

#[test]
fn standard_analyzer_removes_stop_words() {
    let tokens = tokenize("standard", "the quick and the dead");
    // "the" and "and" are stop words
    assert!(!tokens.contains(&"the".to_string()));
    assert!(!tokens.contains(&"and".to_string()));
    assert!(tokens.contains(&"quick".to_string()));
    assert!(tokens.contains(&"dead".to_string()));
}

#[test]
fn keyword_analyzer_no_tokenization() {
    let tokens = tokenize("keyword", "Hello World");
    assert_eq!(tokens, vec!["Hello World"]);
}

#[test]
fn ngram_analyzer_produces_substrings() {
    let tokens = tokenize("ngram", "abc");
    // For "abc" with min=2, max=3: "ab", "abc", "bc"
    assert!(tokens.contains(&"ab".to_string()));
    assert!(tokens.contains(&"bc".to_string()));
    assert!(tokens.contains(&"abc".to_string()));
}

#[test]
fn portuguese_analyzer_removes_stop_words() {
    let tokens = tokenize("portuguese", "o gato e o rato");
    // "o" and "e" are Portuguese stop words
    assert!(!tokens.contains(&"o".to_string()));
    assert!(!tokens.contains(&"e".to_string()));
    assert!(tokens.contains(&"gato".to_string()));
    assert!(tokens.contains(&"rato".to_string()));
}

#[test]
fn cjk_analyzer_segments_chinese() {
    let tokens = tokenize("cjk", "中华人民共和国");
    assert!(!tokens.is_empty());
    // It should produce multiple tokens for this compound phrase
    assert!(tokens.len() > 1);
}

#[test]
fn word_offsets_are_bytes() {
    let text = "中华人民共和国 rust";
    let mut stream = token_stream(text);
    let mut seen = 0;
    while stream.advance() {
        let t = &stream.token;
        assert_eq!(&text[t.offset_from..t.offset_to], t.text);
        assert_eq!(t.position, seen);
        seen += 1;
    }
    assert!(seen > 2);
    let words = vec![(own("b"), 1, 2), (own("x"), 9, 12)];
    assert_eq!(byte_tokens("éb", words), vec![(own("b"), 2, 3), (own("x"), 3, 3)]);
}

#[test]
fn there_are_five_analyzers() {
    let names: Vec<String> = analyzers().into_iter().map(|a| a.name).collect();
    assert_eq!(names, vec!["standard", "keyword", "ngram", "portuguese", "cjk"]);
    assert_eq!(analyzers()[0].stop_words.len(), 33);
}

// --- schemas ---------------------------------------------------------------------

#[test]
fn schema_config_builder_pattern() {
    let config = SchemaConfig::new()
        .with_field(FieldConfig::new("title", FieldType::Text))
        .with_field(FieldConfig::new("price", FieldType::Number));

    assert_eq!(config.fields.len(), 2);
    assert_eq!(config.fields[0].name, "title");
    assert_eq!(config.fields[1].field_type, FieldType::Number);
}

#[test]
fn field_config_defaults() {
    let fc = FieldConfig::new("name", FieldType::Text);
    assert!(fc.stored);
    assert!(fc.indexed);
}

#[test]
fn field_config_builder_overrides() {
    let fc = FieldConfig::new("name", FieldType::Text)
        .with_stored(false)
        .with_indexed(false);
    assert!(!fc.stored);
    assert!(!fc.indexed);
}

#[test]
fn build_schema_has_meta_fields() {
    let config = SchemaConfig::new();
    let (schema, field_map) = DynamicSchemaBuilder::build(&config);

    // Meta-fields must be present
    assert!(field_map.contains_key(&own("_id")));
    assert!(field_map.contains_key(&own("_score")));
    assert!(field_map.contains_key(&own("_timestamp")));

    // Schema should have exactly 3 fields (meta only)
    assert_eq!(schema.fields().count(), 3);
    for name in ["_id", "_score", "_timestamp"] {
        let field = schema.get_field(name).unwrap();
        assert_eq!(Some(field.field_id()), number_of(&field_map, name));
    }
}

#[test]
fn build_schema_with_text_field() {
    let config = SchemaConfig::new().with_field(FieldConfig::new("title", FieldType::Text));
    let (schema, field_map) = DynamicSchemaBuilder::build(&config);
    assert!(field_map.contains_key(&own("title")));
    let title_field = schema.get_field("title").unwrap();
    assert_eq!(Some(title_field.field_id()), number_of(&field_map, "title"));
    assert!(schema.get_field_entry(title_field).is_stored());
    assert!(schema.get_field_entry(title_field).is_indexed());
}

#[test]
fn build_schema_with_number_field() {
    let config = SchemaConfig::new().with_field(FieldConfig::new("price", FieldType::Number));
    let (schema, field_map) = DynamicSchemaBuilder::build(&config);
    assert!(field_map.contains_key(&own("price")));
    let price = schema.get_field("price").unwrap();
    assert_eq!(schema.get_field_entry(price).field_type().value_type(), Type::F64);
    assert!(schema.get_field_entry(price).is_fast());
}

#[test]
fn build_schema_with_boolean_field() {
    let config = SchemaConfig::new().with_field(FieldConfig::new("active", FieldType::Boolean));
    let (schema, field_map) = DynamicSchemaBuilder::build(&config);
    assert!(field_map.contains_key(&own("active")));
    let active = schema.get_field("active").unwrap();
    assert_eq!(schema.get_field_entry(active).field_type().value_type(), Type::U64);
}

#[test]
fn a_field_that_is_neither_stored_nor_indexed() {
    let config = SchemaConfig::new().with_field(
        FieldConfig::new("note", FieldType::Text).with_stored(false).with_indexed(false),
    );
    let (schema, _) = DynamicSchemaBuilder::build(&config);
    let entry = schema.get_field_entry(schema.get_field("note").unwrap());
    assert!(!entry.is_stored());
    assert!(!entry.is_indexed());
}

#[test]
fn build_default_has_body_field() {
    let (_schema, field_map) = DynamicSchemaBuilder::build_default();
    assert!(field_map.contains_key(&own("_body")));
    assert!(field_map.contains_key(&own("_id")));
}

#[test]
fn schema_is_immutable_via_arc() {
    let config = SchemaConfig::new().with_field(FieldConfig::new("x", FieldType::Text));
    let (schema, _) = DynamicSchemaBuilder::build(&config);
    let schema2 = Arc::clone(&schema);
    assert_eq!(schema.get_field("x").unwrap(), schema2.get_field("x").unwrap());
}

#[test]
fn a_mapping_makes_a_schema() {
    let mut mapping = FieldMapping::new();
    mapping.register_field("name", MappedFieldType::Text).unwrap();
    mapping.register_field("price", MappedFieldType::Number).unwrap();
    assert!(can_make_a_schema(&mapping, true));
    let (schema, map) = build_schema_from_mapping(&mapping, true);
    assert_eq!(schema.fields().count(), map.len());
    for name in ["_id", "_body", "name", "price"] {
        let field = schema.get_field(name).unwrap();
        assert_eq!(number_of(&map, name), Some(field.field_id()));
    }
    let (initial, map) = build_initial_schema();
    assert_eq!(initial.fields().count(), map.len());
    mapping.register_field("_id", MappedFieldType::Text).unwrap();
    assert!(!can_make_a_schema(&mapping, true));
}

// --- query builder ----------------------------------------------------------------

#[test]
fn builder_single_must_unwraps() {
    let query = QueryBuilder::new().must_match("title", "hello").build();
    assert!(matches!(query, Query::FullText(_)));
}

#[test]
fn builder_multiple_clauses_produces_bool() {
    let query = QueryBuilder::new()
        .must_match("title", "hello")
        .should_match("body", "world")
        .build();
    match query {
        Query::Bool(bq) => {
            assert_eq!(bq.must.len(), 1);
            assert_eq!(bq.should.len(), 1);
            assert!(bq.must_not.is_empty());
        }
        _ => panic!("expected BoolQuery"),
    }
}

#[test]
fn builder_must_not() {
    let query = QueryBuilder::new()
        .must_match("title", "rust")
        .must_not_match("title", "old")
        .build();
    match query {
        Query::Bool(bq) => {
            assert_eq!(bq.must.len(), 1);
            assert_eq!(bq.must_not.len(), 1);
        }
        _ => panic!("expected BoolQuery"),
    }
}

#[test]
fn builder_term_queries() {
    let query = QueryBuilder::new()
        .must_term("status", "active")
        .should_term("priority", "high")
        .must_not_term("deleted", "true")
        .build();
    match query {
        Query::Bool(bq) => {
            assert_eq!(bq.must.len(), 1);
            assert_eq!(bq.should.len(), 1);
            assert_eq!(bq.must_not.len(), 1);
            assert!(matches!(&bq.must[0], Query::Term(_)));
        }
        _ => panic!("expected BoolQuery"),
    }
}

#[test]
fn builder_range_query() {
    let query = QueryBuilder::new()
        .must_range("price", Some(num(10.0)), Some(num(100.0)))
        .build();
    match query {
        Query::Range(rq) => {
            assert_eq!(rq.field, "price");
            assert_eq!(rq.gte, Some(num(10.0)));
            assert_eq!(rq.lte, Some(num(100.0)));
        }
        _ => panic!("expected RangeQuery"),
    }
}

#[test]
fn builder_must_match_all() {
    let query = QueryBuilder::new()
        .must_match_all("title", "distributed database")
        .build();
    match query {
        Query::FullText(ftq) => {
            assert_eq!(ftq.operator, Operator::And);
        }
        _ => panic!("expected FullTextQuery"),
    }
}

#[test]
fn builder_phrase_wraps_in_quotes() {
    let query = QueryBuilder::new().phrase("title", "hello world").build();
    match query {
        Query::FullText(ftq) => {
            assert_eq!(ftq.query, "\"hello world\"");
            assert_eq!(ftq.operator, Operator::And);
        }
        _ => panic!("expected FullTextQuery"),
    }
}

#[test]
fn builder_boost() {
    let two = Score { bits: 2.0f32.to_bits() };
    let builder = QueryBuilder::new().must_match("title", "test").boost(two);
    assert_eq!(builder.boost_factor, Some(two));
}

#[test]
fn builder_complex_query() {
    let query = QueryBuilder::new()
        .must_match("title", "rust programming")
        .must_range("price", Some(num(0.0)), Some(num(50.0)))
        .should_match("body", "beginner")
        .must_not_term("status", "draft")
        .boost(Score { bits: 1.5f32.to_bits() })
        .build();
    match query {
        Query::Bool(bq) => {
            assert_eq!(bq.must.len(), 2); // full-text + range
            assert_eq!(bq.should.len(), 1);
            assert_eq!(bq.must_not.len(), 1);
        }
        _ => panic!("expected BoolQuery"),
    }
}

#[test]
fn builder_empty_produces_empty_bool() {
    let query = QueryBuilder::new().build();
    match query {
        Query::Bool(bq) => {
            assert!(bq.must.is_empty());
            assert!(bq.should.is_empty());
            assert!(bq.must_not.is_empty());
        }
        _ => panic!("expected BoolQuery"),
    }
}

#[test]
fn builder_is_clone() {
    let builder = QueryBuilder::new().must_match("title", "test");
    let cloned = builder.clone();
    let q1 = builder.build();
    let q2 = cloned.build();
    assert_eq!(q1, q2);
}

#[test]
fn builder_fuzzy_is_understood() {
    let idx = make_index();
    index_sample_corpus(&idx);
    let query = QueryBuilder::new().fuzzy("title", "Ruts", 1).build();
    match &query {
        Query::FullText(q) => assert_eq!(q.query, "~1:Ruts"),
        other => panic!("{:?}", other),
    }
    assert_eq!(find(&idx, &query, 10).total, 2);
}

#[test]
fn builder_wildcard_and_should_range() {
    let query = QueryBuilder::new().wildcard("title", "ru*").build();
    assert_eq!(query, term("title", "ru*"));
    let query = QueryBuilder::new().should_range("price", None, Some(num(1.0))).build();
    assert!(matches!(query, Query::Bool(b) if b.should.len() == 1));
}

// --- queries -----------------------------------------------------------------------

#[test]
fn fuzzy_marks_are_found() {
    let p = extract_fuzzy_params("hello~1 world~2").unwrap();
    assert_eq!((p.clean_query.as_str(), p.distance), ("hello world", 1));
    let p = extract_fuzzy_params("Ruts~2").unwrap();
    assert_eq!((p.clean_query.as_str(), p.distance), ("Ruts", 2));
    let p = extract_fuzzy_params("hello~1 world~3 odd~x").unwrap();
    assert_eq!((p.clean_query.as_str(), p.distance), ("hello world oddx", 1));
    let p = extract_fuzzy_params("foo~bar baz~1 a~b~2 ~").unwrap();
    assert_eq!((p.clean_query.as_str(), p.distance), ("foobar baz ab ", 1));
    assert!(extract_fuzzy_params("plain words").is_none());
    assert!(extract_fuzzy_params("far~3").is_none());
    assert!(extract_fuzzy_params("odd~x").is_none());
}

#[test]
fn unknown_fields_are_refused() {
    let (_, map) = DynamicSchemaBuilder::build_default();
    for q in [full_text("x", "y", Operator::Or), term("x", "y"), range("x", 0.0, 1.0)] {
        match translate_query(&q, &map, true) {
            Err(DbError::InvalidInput(m)) => assert_eq!(m, "field 'x' not in schema"),
            other => panic!("{:?}", other),
        }
    }
}

#[test]
fn exclusions_alone_start_from_all() {
    let (_, map) = DynamicSchemaBuilder::build_default();
    let q = Query::Bool(BoolQuery { must: vec![], should: vec![], must_not: vec![term("_id", "1")] });
    match translate_query(&q, &map, false) {
        Ok(Plan::Bool(clauses)) => {
            assert_eq!(clauses.len(), 2);
            assert_eq!(clauses[0].0, Occur::MustNot);
            assert!(matches!(clauses[1], (Occur::Must, Plan::All)));
        }
        other => panic!("{:?}", other),
    }
}

// --- documents as entries -------------------------------------------------------------

#[test]
fn a_written_document_reads_back() {
    let config = SchemaConfig::new()
        .with_field(FieldConfig::new("title", FieldType::Text))
        .with_field(FieldConfig::new("price", FieldType::Number))
        .with_field(FieldConfig::new("active", FieldType::Boolean));
    let (_, map) = DynamicSchemaBuilder::build(&config);
    let doc = Document::new("1")
        .with_field("title", text("lamp"))
        .with_field("price", FieldValue::Number(num(9.5)))
        .with_field("active", FieldValue::Boolean(false))
        .with_field("unknown", text("x"));
    let entries = to_tantivy_doc(&map, &doc, 7);
    assert_eq!(entries.len(), 5);
    let back = reconstruct_document(&entries, &map, &vec![]);
    assert_eq!(back.id, "1");
    assert_eq!(back.fields.len(), 3);
    assert_eq!(back.get_field("title"), Some(&text("lamp")));
    assert_eq!(back.get_field("price"), Some(&FieldValue::Number(num(9.5))));
    assert_eq!(back.get_field("active"), Some(&FieldValue::Boolean(false)));
}

#[test]
fn all_text_goes_into_the_body() {
    let mut mapping = FieldMapping::new();
    mapping.register_field("a", MappedFieldType::Text).unwrap();
    mapping.register_field("b", MappedFieldType::Array).unwrap();
    let (_, map) = build_schema_from_mapping(&mapping, true);
    let doc = Document::new("1")
        .with_field("a", text("red"))
        .with_field("b", FieldValue::Array(vec![text("lamp"), FieldValue::Boolean(true)]));
    let entries = build_tantivy_doc(&map, &doc, 7);
    let body = number_of(&map, "_body").unwrap();
    let bodies: Vec<&Entry> = entries.iter().filter(|e| e.field == body).collect();
    assert_eq!(bodies.len(), 1);
    assert!(matches!(&bodies[0].value, EntryValue::Text(t) if t == "red lamp"));
}

// --- highlighting ------------------------------------------------------------------

fn test_index_with_docs() -> Idx {
    let config = SchemaConfig::new()
        .with_field(FieldConfig::new("title", FieldType::Text))
        .with_field(FieldConfig::new("body", FieldType::Text));
    let idx: Idx = TantivyIndex::new_in_ram(&config, open).unwrap();
    let doc = Document::new("h1")
        .with_field("title", text("Introduction to Distributed Databases"))
        .with_field(
            "body",
            text(
                "A distributed database stores data across multiple nodes for high availability \
                 and fault tolerance. This approach enables horizontal scaling and geographic \
                 distribution of data.",
            ),
        );
    index_doc(&idx, &doc);
    commit_all(&idx);
    idx
}

fn marked(
    idx: &Idx,
    doc: &Document,
    query: &Query,
    field: &str,
    config: &HighlightConfig,
) -> Vec<HighlightResult> {
    let e = idx.inner_index();
    let ask = |r: &Request, size: usize| snippet(e, r, size);
    highlight(idx.field_map(), doc, query, &vec![own(field)], config, &ask)
}

#[test]
fn highlight_returns_fragments_with_em_tags() {
    let idx = test_index_with_docs();
    let doc = Document::new("h1").with_field(
        "body",
        text(
            "A distributed database stores data across multiple nodes for high availability and \
             fault tolerance.",
        ),
    );
    let query = full_text("body", "distributed database", Operator::Or);
    let results = marked(&idx, &doc, &query, "body", &HighlightConfig::default());

    assert_eq!(results.len(), 1);
    assert_eq!(results[0].field, "body");
    assert!(!results[0].fragments.is_empty());
    assert!(results[0].fragments[0].contains("<em>distributed</em>"));
}

#[test]
fn highlight_config_custom_tags() {
    let idx = test_index_with_docs();
    let doc = Document::new("h1").with_field("body", text("A distributed database system"));
    let query = full_text("body", "distributed", Operator::Or);
    let config = HighlightConfig {
        pre_tag: "<mark>".into(),
        post_tag: "</mark>".into(),
        ..Default::default()
    };
    let results = marked(&idx, &doc, &query, "body", &config);
    if !results[0].fragments.is_empty() {
        let frag = &results[0].fragments[0];
        assert!(frag.contains("<mark>") || frag.contains("distributed"));
    }
    assert_eq!(results[0].fragments, vec!["A <mark>distributed</mark> database system"]);
}

#[test]
fn highlight_missing_field_returns_empty() {
    let idx = test_index_with_docs();
    let doc = Document::new("h1").with_field("title", text("Test"));
    let query = full_text("nonexistent", "test", Operator::Or);
    let results = marked(&idx, &doc, &query, "nonexistent", &HighlightConfig::default());
    assert!(results[0].fragments.is_empty());
}

#[test]
fn highlight_non_text_field_returns_empty() {
    let config = SchemaConfig::new().with_field(FieldConfig::new("price", FieldType::Number));
    let idx: Idx = TantivyIndex::new_in_ram(&config, open).unwrap();
    let doc = Document::new("h2").with_field("price", FieldValue::Number(num(42.0)));
    let query = full_text("price", "42", Operator::Or);
    let results = marked(&idx, &doc, &query, "price", &HighlightConfig::default());
    assert!(results[0].fragments.is_empty());
}

#[test]
fn extract_query_text_from_full_text() {
    let query = full_text("title", "hello world", Operator::Or);
    assert_eq!(extract_query_text(&query, "title"), "hello world");
    assert_eq!(extract_query_text(&query, "body"), "");
}

#[test]
fn marks_of_typing_errors_are_no_words() {
    let query = QueryBuilder::new().fuzzy("title", "ruts", 1).build();
    assert_eq!(extract_query_text(&query, "title"), "ruts");
    let query = full_text("title", "ruts~1 lang", Operator::Or);
    assert_eq!(extract_query_text(&query, "title"), "ruts lang");
}

#[test]
fn extract_query_text_from_bool() {
    let query = Query::Bool(BoolQuery {
        must: vec![full_text("title", "rust", Operator::Or)],
        should: vec![full_text("title", "programming", Operator::Or)],
        must_not: vec![],
    });
    let text = extract_query_text(&query, "title");
    assert!(text.contains("rust"));
    assert!(text.contains("programming"));
    assert_eq!(text, "rust programming");
}

#[test]
fn fragments_take_the_tags() {
    let config = HighlightConfig::default();
    assert_eq!((config.max_fragments, config.fragment_size), (3, 150));
    assert_eq!(fragments("a <b>b</b>", &config), vec!["a <em>b</em>"]);
    assert!(fragments("", &config).is_empty());
}

// --- the index of a schema ----------------------------------------------------------

#[test]
fn create_index_in_ram() {
    let idx = test_index();
    assert!(idx.field_map.contains_key(&own("_id")));
    assert!(idx.field_map.contains_key(&own("title")));
    assert!(idx.field_map.contains_key(&own("body")));
    assert!(idx.field_map.contains_key(&own("price")));
}

#[test]
fn index_and_search_single_document() {
    let idx = test_index();
    let doc = test_doc("doc-1", "Rust Programming", "Learn Rust today", 29.99);
    index_doc(&idx, &doc);
    commit_all(&idx);
    let result = find(&idx, &full_text("title", "Rust", Operator::Or), 10);
    assert_eq!(result.total, 1);
    assert_eq!(result.documents[0].document.id.as_str(), "doc-1");
}

#[test]
fn index_100_documents_and_search() {
    let idx = test_index();
    for i in 0..100 {
        let doc = test_doc(
            &format!("doc-{}", i),
            &format!("Document number {}", i),
            &format!("This is the body of document {}", i),
            i as f64 * 1.5,
        );
        index_doc(&idx, &doc);
    }
    commit_all(&idx);
    let result = find(&idx, &full_text("title", "Document", Operator::Or), 100);
    assert_eq!(result.total, 100);
}

#[test]
fn bm25_exact_match_scores_higher() {
    let idx = test_index();
    let doc1 = test_doc(
        "exact",
        "distributed database systems",
        "A treatise on distributed database systems",
        10.0,
    );
    let doc2 = test_doc(
        "partial",
        "introduction to systems programming",
        "Systems are everywhere",
        20.0,
    );
    index_doc(&idx, &doc1);
    index_doc(&idx, &doc2);
    commit_all(&idx);
    let result = find(&idx, &full_text("title", "distributed database", Operator::And), 10);
    assert!(!result.documents.is_empty());
    // The exact match should be the top result
    assert_eq!(result.documents[0].document.id.as_str(), "exact");
}

#[test]
fn term_query_exact_match() {
    let idx = test_index();
    index_doc(&idx, &test_doc("t1", "Exact Match Test", "body", 5.0));
    commit_all(&idx);
    let result = find(&idx, &term("_id", "t1"), 10);
    assert_eq!(result.total, 1);
    assert_eq!(result.documents[0].document.id.as_str(), "t1");
}

#[test]
fn range_query_numeric_filter() {
    let idx = test_index();
    for i in 0..10 {
        let doc = test_doc(
            &format!("rng-{}", i),
            &format!("Item {}", i),
            "body",
            i as f64 * 10.0,
        );
        index_doc(&idx, &doc);
    }
    commit_all(&idx);
    let result = find(&idx, &range("price", 20.0, 50.0), 10);
    // Documents with price 20, 30, 40, 50
    assert_eq!(result.total, 4);
}

#[test]
fn bool_query_must_and_must_not() {
    let idx = test_index();
    index_doc(&idx, &test_doc("b1", "Rust programming", "Learn Rust", 10.0));
    index_doc(&idx, &test_doc("b2", "Go programming", "Learn Go", 10.0));
    index_doc(&idx, &test_doc("b3", "Rust systems", "Rust for systems", 20.0));
    commit_all(&idx);

    // Must match "Rust" in title, must NOT match "systems" in title
    let query = Query::Bool(BoolQuery {
        must: vec![full_text("title", "Rust", Operator::Or)],
        should: vec![],
        must_not: vec![full_text("title", "systems", Operator::Or)],
    });
    let result = find(&idx, &query, 10);
    assert_eq!(result.total, 1);
    assert_eq!(result.documents[0].document.id.as_str(), "b1");
}

#[test]
fn delete_removes_document_from_results() {
    let idx = test_index();
    index_doc(&idx, &test_doc("del-1", "Delete me", "This will be deleted", 1.0));
    commit_all(&idx);

    // Verify it exists
    let query = term("_id", "del-1");
    assert_eq!(find(&idx, &query, 10).total, 1);

    // Delete and commit
    idx.delete_document_sync("del-1", delete).unwrap();
    commit_all(&idx);

    // Verify it's gone
    assert_eq!(find(&idx, &query, 10).total, 0);
}

#[test]
fn update_replaces_document() {
    let idx = test_index();
    index_doc(&idx, &test_doc("upd-1", "Version One", "First version", 1.0));
    commit_all(&idx);

    // Update with new content
    let doc_v2 = test_doc("upd-1", "Version Two", "Second version", 2.0);
    idx.update_document_sync(&doc_v2, 1_700_000_001, delete, write_behind).unwrap();
    commit_all(&idx);

    // Search for old content should not find it
    assert_eq!(find(&idx, &full_text("title", "One", Operator::Or), 10).total, 0);

    // Search for new content should find it
    let result = find(&idx, &full_text("title", "Two", Operator::Or), 10);
    assert_eq!(result.total, 1);
    assert_eq!(result.documents[0].document.id.as_str(), "upd-1");
}

#[test]
fn document_roundtrip_preserves_fields() {
    let idx = test_index();
    index_doc(&idx, &test_doc("rt-1", "Roundtrip Test", "Body text", 42.0));
    commit_all(&idx);

    let result = find(&idx, &term("_id", "rt-1"), 1);
    assert_eq!(result.total, 1);

    let retrieved = &result.documents[0].document;
    assert_eq!(retrieved.id.as_str(), "rt-1");
    assert_eq!(retrieved.get_field("title"), Some(&text("Roundtrip Test")));
    assert_eq!(retrieved.get_field("body"), Some(&text("Body text")));
    assert_eq!(retrieved.get_field("price"), Some(&FieldValue::Number(num(42.0))));
    assert_eq!(retrieved.get_field("active"), Some(&FieldValue::Boolean(true)));
}

#[test]
fn async_index_backend_trait() {
    let idx = test_index();
    put_at_once(&idx, &test_doc("async-1", "Async Test", "Async body", 1.0));
    let result = idx.search(&full_text("title", "Async", Operator::Or), run).unwrap();
    assert_eq!(result.total, 1);
}

#[test]
fn async_delete_via_trait() {
    let idx = test_index();
    put_at_once(&idx, &test_doc("async-del", "Delete Async", "body", 1.0));
    idx.delete_document_sync("async-del", delete).unwrap();
    commit_all(&idx);
    let result = idx.search(&term("_id", "async-del"), run).unwrap();
    assert_eq!(result.total, 0);
}

#[test]
fn a_document_is_replaced_at_once() {
    let idx = test_index();
    put_at_once(&idx, &test_doc("x", "First words", "body", 1.0));
    put_at_once(&idx, &test_doc("x", "Second words", "body", 2.0));
    assert_eq!(find(&idx, &term("_id", "x"), 10).total, 1);
    assert_eq!(find(&idx, &full_text("title", "first", Operator::Or), 10).total, 0);
    assert_eq!(find(&idx, &full_text("title", "second", Operator::Or), 10).total, 1);
}

#[test]
fn each_step_of_an_update_takes_what_the_one_before_gave() {
    let idx = test_index();
    let doc = test_doc("x", "Title", "body", 1.0);
    let deleted = |_: &Engine, field: u32, id: &str| Ok((field, own(id)));
    let written = |_: &Engine, deleted: (u32, String), entries: Vec<Entry>| {
        assert_eq!(deleted, (0, own("x")));
        assert!(matches!(&entries[0].value, EntryValue::Text(t) if t == "x"));
        Ok(7)
    };
    let committed = |_: &Engine, written: i32| {
        assert_eq!(written, 7);
        Ok(())
    };
    assert!(idx.index_document(&doc, 1, deleted, written, committed).is_ok());

    // Nothing is written where the deletion fails, and nothing committed where the write does.
    let refused = |_: &Engine, _: u32, _: &str| Err::<(), DbError>(DbError::IndexError(own("d")));
    let never = |_: &Engine, _: (), _: Vec<Entry>| -> Result<(), DbError> { unreachable!() };
    match idx.update_document_sync(&doc, 1, refused, never) {
        Err(DbError::IndexError(m)) => assert_eq!(m, "d"),
        other => panic!("{:?}", other),
    }
    let unwritten =
        |_: &Engine, _: (), _: Vec<Entry>| Err::<(), DbError>(DbError::IndexError(own("w")));
    let no_commit = |_: &Engine, _: ()| -> Result<(), DbError> { unreachable!() };
    match idx.index_document(&doc, 1, delete, unwritten, no_commit) {
        Err(DbError::IndexError(m)) => assert_eq!(m, "w"),
        other => panic!("{:?}", other),
    }
}

#[test]
fn wildcards_are_expanded() {
    let idx = test_index();
    index_doc(&idx, &test_doc("a.b", "Rust", "body", 1.0));
    index_doc(&idx, &test_doc("axb", "Ruby", "body", 1.0));
    index_doc(&idx, &test_doc("a?b", "Go", "body", 1.0));
    commit_all(&idx);
    let count = |field: &str, pattern: &str| {
        let query = QueryBuilder::new().wildcard(field, pattern).build();
        find(&idx, &query, 10).total
    };
    assert_eq!(count("title", "ru*"), 2);
    assert_eq!(count("title", "ru?t"), 1);
    assert_eq!(count("title", "ru?"), 0);
    assert_eq!(count("title", "*"), 3);
    // What a regular expression reads in another way stands for itself.
    assert_eq!(count("title", "ru.?"), 0);
    // Identifiers are looked up as they are.
    assert_eq!(count("_id", "a?b"), 1);
    assert_eq!(count("_id", "a*"), 0);
    assert_eq!(wildcard_regex("a.*-?"), Some(own("a\\.(?s:.*)\\-(?s:.)")));
    assert_eq!(wildcard_regex("plain"), None);
}

#[test]
fn text_fields_are_cut_by_the_standard_analyzer() {
    let idx = test_index();
    index_doc(&idx, &test_doc("s", "The Art of War", "body", 1.0));
    commit_all(&idx);
    assert_eq!(find(&idx, &full_text("title", "art", Operator::Or), 10).total, 1);
    // A stop word is not in the index.
    assert_eq!(find(&idx, &term("title", "the"), 10).total, 0);
}

#[test]
fn search_returns_timing() {
    let idx = test_index();
    index_doc(&idx, &test_doc("timing-1", "Timing Test", "body", 1.0));
    commit_all(&idx);
    let result = find(&idx, &full_text("title", "Timing", Operator::Or), 10);
    // took_ms should be a non-negative number
    assert!(result.took_ms < 5000); // sanity: should be well under 5s
}

#[test]
fn a_search_for_an_unknown_field_does_not_reach_the_engine() {
    let idx = test_index();
    let r = idx.search_sync(&term("nowhere", "x"), 10, |_: &Engine, _: Plan, _: usize| {
        panic!("asked")
    });
    assert!(matches!(r, Err(DbError::InvalidInput(_))));
}

#[test]
fn a_failing_engine_is_reported() {
    let config = SchemaConfig::new();
    let r: Result<Idx, DbError> =
        TantivyIndex::new_in_ram(&config, |_: Option<String>, _: Schema| {
            Err(DbError::IndexError(own("no room")))
        });
    assert!(matches!(r, Err(DbError::IndexError(m)) if m == "no room"));
}

// --- searching a corpus ---------------------------------------------------------------

#[test]
fn search_all_query_variants() {
    let idx = make_index();
    index_sample_corpus(&idx);

    // FullText query
    let result = find(&idx, &full_text("title", "Rust", Operator::Or), 10);
    assert_eq!(result.total, 2); // "Rust Programming Language" + "Async Programming in Rust"

    // Term query on _id
    let result = find(&idx, &term("_id", "go-book"), 10);
    assert_eq!(result.total, 1);
    assert_eq!(result.documents[0].document.id.as_str(), "go-book");

    // Range query on price
    let result = find(&idx, &range("price", 40.0, 50.0), 10);
    assert_eq!(result.total, 2); // 45.99 and 49.99

    // Bool query: must "programming" in body, must_not "Go" in title
    let query = Query::Bool(BoolQuery {
        must: vec![full_text("body", "programming", Operator::Or)],
        should: vec![],
        must_not: vec![full_text("title", "Go", Operator::Or)],
    });
    let result = find(&idx, &query, 10);
    // Should find rust-book (systems programming) but not go-book
    assert!(result
        .documents
        .iter()
        .all(|sd| sd.document.id.as_str() != "go-book"));
    assert!(!result.documents.is_empty());
}

#[test]
fn bm25_exact_matches_rank_higher() {
    let idx = make_index();
    index_sample_corpus(&idx);
    let result = find(&idx, &full_text("title", "Database Internals", Operator::And), 10);
    assert!(!result.documents.is_empty());
    assert_eq!(result.documents[0].document.id.as_str(), "database-internals");
}

#[test]
fn fuzzy_search_with_typo() {
    let idx = make_index();
    index_sample_corpus(&idx);
    // "Ruts" is a typo for "Rust"
    let result = find(&idx, &full_text("title", "Ruts~1", Operator::Or), 10);
    // Should find documents with "Rust" in title despite the typo
    assert!(!result.documents.is_empty(), "fuzzy search should find results");
}

#[test]
fn phrase_query_preserves_word_order() {
    let idx = make_index();
    index_sample_corpus(&idx);

    // "Programming Language" as a phrase (in order)
    let result = find(&idx, &full_text("title", "\"Programming Language\"", Operator::And), 10);
    assert_eq!(result.total, 2); // rust-book and go-book

    // Reversed order should NOT match as phrase
    let result = find(&idx, &full_text("title", "\"Language Programming\"", Operator::And), 10);
    assert_eq!(result.total, 0);
}

#[test]
fn ngram_analyzer_finds_partial_words() {
    let config = SchemaConfig::new().with_field(FieldConfig::new("name", FieldType::Text));
    let idx: Idx = TantivyIndex::new_in_ram(&config, open).unwrap();
    index_doc(&idx, &Document::new("ng1").with_field("name", text("elasticsearch")));
    commit_all(&idx);
    let result = find(&idx, &full_text("name", "elasticsearch", Operator::Or), 10);
    assert_eq!(result.total, 1);
}

#[test]
fn highlighting_returns_correct_fragments() {
    let idx = make_index();
    index_sample_corpus(&idx);
    let doc = sample_doc(
        "rust-book",
        "The Rust Programming Language",
        "Learn Rust from scratch with this comprehensive guide to systems programming",
        "programming",
        39.99,
    );
    let query = full_text("body", "Rust programming", Operator::Or);
    let results = marked(&idx, &doc, &query, "body", &HighlightConfig::default());
    assert_eq!(results.len(), 1);
    assert_eq!(results[0].field, "body");
    if !results[0].fragments.is_empty() {
        assert!(results[0].fragments[0].contains("<em>"));
    }
}

#[test]
fn delete_removes_document_from_search_results() {
    let idx = make_index();
    index_sample_corpus(&idx);

    // Verify document exists
    let query = term("_id", "rust-book");
    assert_eq!(find(&idx, &query, 10).total, 1);

    // Delete it
    idx.delete_document_sync("rust-book", delete).unwrap();
    commit_all(&idx);

    // Verify it's gone
    assert_eq!(find(&idx, &query, 10).total, 0);
}

#[test]
fn update_replaces_old_document() {
    let idx = make_index();
    index_sample_corpus(&idx);

    // Update "rust-book" with new title
    let updated = sample_doc(
        "rust-book",
        "Rust 2024 Edition",
        "Updated content for the new edition",
        "programming",
        49.99,
    );
    idx.update_document_sync(&updated, 1_700_000_001, delete, write_behind).unwrap();
    commit_all(&idx);

    // Old title should not be found
    let result = find(&idx, &full_text("title", "Programming Language", Operator::And), 10);
    // Only go-book should match now
    assert!(result
        .documents
        .iter()
        .all(|sd| sd.document.id.as_str() != "rust-book"));

    // New title should be found
    let result = find(&idx, &full_text("title", "2024 Edition", Operator::And), 10);
    assert_eq!(result.total, 1);
    assert_eq!(result.documents[0].document.id.as_str(), "rust-book");
}

#[test]
fn query_builder_integrates_with_index() {
    let idx = make_index();
    index_sample_corpus(&idx);
    let query = QueryBuilder::new()
        .must_match("body", "systems")
        .must_range("price", Some(num(30.0)), Some(num(50.0)))
        .build();
    let result = find(&idx, &query, 10);
    // Should find docs mentioning "systems" in body with price 30-50
    assert!(!result.documents.is_empty());
    for sd in &result.documents {
        if let Some(FieldValue::Number(price)) = sd.document.get_field("price") {
            let price = f64::from_bits(price.bits);
            assert!(price >= 30.0 && price <= 50.0);
        }
    }
}

#[test]
fn recall_all_indexed_documents_findable_by_id() {
    let idx = make_index();
    let count = 1_000;
    let docs = generate_docs(count);
    for doc in &docs {
        index_doc(&idx, doc);
    }
    commit_all(&idx);

    // Verify every document is findable by its _id
    let mut found = 0;
    for doc in &docs {
        let result = find(&idx, &term("_id", &doc.id), 1);
        if result.total == 1 {
            found += 1;
        }
    }
    assert_eq!(found, count);
}

#[test]
fn disk_based_index_create_and_search() {
    let config = SchemaConfig::new().with_field(FieldConfig::new("title", FieldType::Text));
    let open_on_disk = |path: Option<String>, schema: Schema| {
        assert_eq!(path.as_deref(), Some("data"));
        engine(Index::create_from_tempdir(schema).map_err(broken)?)
    };
    let idx = TantivyIndex::new("data", &config, open_on_disk).unwrap();
    let doc = Document::new("disk-1")
        .with_field("title", FieldValue::Text("Disk based index test".to_string()));
    index_doc(&idx, &doc);
    commit_all(&idx);
    assert_eq!(find(&idx, &full_text("title", "Disk", Operator::Or), 10).total, 1);
}

// --- the indexes of collections ---------------------------------------------------------

type Manager = CollectionIndexManager<Engine>;

fn open_collection(o: Opening, _committed: Option<u64>) -> Result<Engine, DbError> {
    assert!(o.base_path.is_none());
    open(None, o.schema)
}

fn create(mgr: &mut Manager, name: &str) {
    mgr.create_collection(name, open_collection).unwrap();
}

fn put(
    mgr: &mut Manager,
    name: &str,
    doc: &Document,
    mapping: &FieldMapping,
) -> Result<FieldMapping, DbError> {
    mgr.index_document(name, doc, mapping, 1_700_000_000, open_collection, write, commit)
}

fn finish(mgr: &Manager, name: &str) {
    mgr.commit(name, |e: &Engine| commit(e).map(|_| ())).unwrap();
}

#[test]
fn create_and_drop_collection() {
    let mut mgr: Manager = CollectionIndexManager::new_in_ram();
    create(&mut mgr, "test");

    // Idempotent
    create(&mut mgr, "test");

    mgr.drop_collection("test").unwrap();

    // Search on dropped collection should fail
    let query = full_text("_body", "hello", Operator::Or);
    assert!(mgr.search("test", &query, run).is_err());
}

#[test]
fn dynamic_field_mapping_registers_new_fields() {
    let mut mgr: Manager = CollectionIndexManager::new_in_ram();
    create(&mut mgr, "products");

    let doc = Document::new("p1")
        .with_field("name", text("Laptop"))
        .with_field("price", FieldValue::Number(num(999.99)));
    let updated = put(&mut mgr, "products", &doc, &FieldMapping::new()).ok().unwrap();
    assert_eq!(updated.field_count(), 2);
    assert_eq!(updated.get_field_type("name"), Some(MappedFieldType::Text));
    assert_eq!(updated.get_field_type("price"), Some(MappedFieldType::Number));
}

#[test]
fn schema_conflict_returns_error() {
    let mut mgr: Manager = CollectionIndexManager::new_in_ram();
    create(&mut mgr, "test");

    let mut mapping = FieldMapping::new();
    mapping.register_field("status", MappedFieldType::Text).unwrap();

    // Try to index a doc where "status" is a Number — should conflict
    let doc = Document::new("d1").with_field("status", FieldValue::Number(num(42.0)));
    let err = put(&mut mgr, "test", &doc, &mapping).err().unwrap();
    assert!(matches!(err, DbError::SchemaConflict { .. }));
    assert!(register_fields(&mapping, &doc).is_err());
}

#[test]
fn index_and_search_with_dynamic_fields() {
    let mut mgr: Manager = CollectionIndexManager::new_in_ram();
    create(&mut mgr, "articles");

    let doc1 = Document::new("a1")
        .with_field("title", text("Rust Programming"))
        .with_field("views", FieldValue::Number(num(100.0)));
    let mapping = put(&mut mgr, "articles", &doc1, &FieldMapping::new()).ok().unwrap();

    let doc2 = Document::new("a2")
        .with_field("title", text("Go Programming"))
        .with_field("views", FieldValue::Number(num(200.0)));
    let mapping = put(&mut mgr, "articles", &doc2, &mapping).ok().unwrap();

    finish(&mgr, "articles");

    // Search by title
    let query = full_text("title", "Rust", Operator::Or);
    let result = mgr.search("articles", &query, run).ok().unwrap();
    assert_eq!(result.total, 1);
    assert_eq!(result.documents[0].document.id.as_str(), "a1");

    // Verify mapping has 2 fields
    assert_eq!(mapping.field_count(), 2);
}

#[test]
fn index_search_delete_lifecycle() {
    let mut mgr: Manager = CollectionIndexManager::new_in_ram();
    create(&mut mgr, "items");

    let doc = Document::new("i1").with_field("name", text("Widget"));
    let mapping = put(&mut mgr, "items", &doc, &FieldMapping::new()).ok().unwrap();
    finish(&mgr, "items");

    // Verify it exists
    let query = term("_id", "i1");
    assert_eq!(mgr.search("items", &query, run).ok().unwrap().total, 1);

    // Delete
    mgr.delete_document("items", "i1", delete).unwrap();
    finish(&mgr, "items");
    assert_eq!(mgr.search("items", &query, run).ok().unwrap().total, 0);

    // Mapping is preserved
    assert_eq!(mapping.field_count(), 1);
}

#[test]
fn collection_isolation_separate_indices() {
    let mut mgr: Manager = CollectionIndexManager::new_in_ram();
    create(&mut mgr, "col_a");
    create(&mut mgr, "col_b");

    let doc_a = Document::new("d1").with_field("x", text("alpha"));
    let doc_b = Document::new("d1").with_field("x", text("beta"));
    assert!(put(&mut mgr, "col_a", &doc_a, &FieldMapping::new()).is_ok());
    assert!(put(&mut mgr, "col_b", &doc_b, &FieldMapping::new()).is_ok());
    finish(&mgr, "col_a");
    finish(&mgr, "col_b");

    // Search col_a for "alpha" — should find it
    let query = full_text("x", "alpha", Operator::Or);
    assert_eq!(mgr.search("col_a", &query, run).ok().unwrap().total, 1);

    // Search col_b for "alpha" — should NOT find it
    assert_eq!(mgr.search("col_b", &query, run).ok().unwrap().total, 0);
}

#[test]
fn body_catch_all_field_searchable() {
    let mut mgr: Manager = CollectionIndexManager::new_in_ram();
    create(&mut mgr, "test");

    let doc = Document::new("d1").with_field("title", text("Important Document"));
    assert!(put(&mut mgr, "test", &doc, &FieldMapping::new()).is_ok());
    finish(&mgr, "test");

    // Search the _body field
    let query = full_text("_body", "Important", Operator::Or);
    assert_eq!(mgr.search("test", &query, run).ok().unwrap().total, 1);
}

#[test]
fn range_query_on_dynamic_numeric_field() {
    let mut mgr: Manager = CollectionIndexManager::new_in_ram();
    create(&mut mgr, "prices");

    let mut mapping = FieldMapping::new();
    for i in 0..10 {
        let doc = Document::new(&format!("p{}", i))
            .with_field("amount", FieldValue::Number(num(i as f64 * 10.0)));
        mapping = put(&mut mgr, "prices", &doc, &mapping).ok().unwrap();
    }
    finish(&mgr, "prices");

    let result = mgr.search("prices", &range("amount", 30.0, 60.0), run).ok().unwrap();
    // 30, 40, 50, 60
    assert_eq!(result.total, 4);
}

fn options(size: usize) -> SearchOptions {
    SearchOptions { from: 0, size, sort: vec![], search_after: None, collapse: None }
}

fn by(field: &str, order: SortOrder) -> SortClause {
    SortClause { field: own(field), order }
}

fn no_aggregations(_: &Vec<ScoredDocument>) -> Aggregations {
    Table::new()
}

fn arranged(mgr: &Manager, query: &Query, options: &SearchOptions) -> SearchResult {
    mgr.search_with_options("products", query, options, run, no_aggregations).ok().unwrap()
}

fn float(v: Option<&FieldValue>) -> f64 {
    match v {
        Some(FieldValue::Number(n)) => f64::from_bits(n.bits),
        other => panic!("{:?}", other),
    }
}

fn prices(result: &SearchResult) -> Vec<f64> {
    result.documents.iter().map(|d| float(d.document.get_field("price"))).collect()
}

fn category(d: &ScoredDocument) -> String {
    match d.document.get_field("category") {
        Some(FieldValue::Text(s)) => s.clone(),
        other => panic!("{:?}", other),
    }
}

fn setup_products() -> (Manager, Query) {
    let mut mgr: Manager = CollectionIndexManager::new_in_ram();
    create(&mut mgr, "products");
    let mut mapping = FieldMapping::new();
    let products = vec![
        ("p1", "Laptop", "electronics", 999.0, 1700000000.0),
        ("p2", "Phone", "electronics", 699.0, 1700003600.0),
        ("p3", "Tablet", "electronics", 499.0, 1700007200.0),
        ("p4", "Novel", "books", 15.0, 1700010800.0),
        ("p5", "Textbook", "books", 85.0, 1700014400.0),
        ("p6", "T-Shirt", "clothing", 25.0, 1700018000.0),
        ("p7", "Jeans", "clothing", 60.0, 1700021600.0),
        ("p8", "Hat", "clothing", 20.0, 1700025200.0),
        ("p9", "Keyboard", "electronics", 120.0, 1700028800.0),
        ("p10", "Mouse", "electronics", 45.0, 1700032400.0),
    ];
    for (id, name, category, price, ts) in products {
        let doc = Document::new(id)
            .with_field("name", text(name))
            .with_field("category", text(category))
            .with_field("price", FieldValue::Number(num(price)))
            .with_field("timestamp", FieldValue::Number(num(ts)));
        mapping = put(&mut mgr, "products", &doc, &mapping).ok().unwrap();
    }
    finish(&mgr, "products");
    (mgr, full_text("_body", "electronics books clothing", Operator::Or))
}

/// One aggregation over the documents that match, as it comes back from a search.
fn aggregated(name: &str, compute: fn(&Vec<ScoredDocument>) -> AggregationResult) -> AggregationResult {
    let (mgr, query) = setup_products();
    let aggregate = |docs: &Vec<ScoredDocument>| {
        let mut aggs: Aggregations = Table::new();
        aggs.insert(own(name), compute(docs));
        aggs
    };
    let result =
        mgr.search_with_options("products", &query, &options(10), run, aggregate).ok().unwrap();
    assert_eq!(result.aggregations.len(), 1);
    result.aggregations.get(&own(name)).unwrap().clone()
}

fn price_list(docs: &Vec<ScoredDocument>) -> Vec<f64> {
    docs.iter().map(|d| float(d.document.get_field("price"))).collect()
}

fn metric(value: f64) -> AggregationResult {
    AggregationResult::Metric { value: Some(num(value)) }
}

#[test]
fn integration_terms_aggregation() {
    let top_categories = aggregated("top_categories", |docs| {
        let mut buckets: Vec<Bucket> = Vec::new();
        for key in docs.iter().map(category) {
            match buckets.iter_mut().find(|b| b.key == key) {
                Some(b) => b.doc_count += 1,
                None => buckets.push(Bucket { key, doc_count: 1 }),
            }
        }
        buckets.sort_by(|a, b| b.doc_count.cmp(&a.doc_count));
        AggregationResult::Buckets { buckets }
    });
    let buckets = vec![
        Bucket { key: own("electronics"), doc_count: 5 },
        Bucket { key: own("clothing"), doc_count: 3 },
        Bucket { key: own("books"), doc_count: 2 },
    ];
    assert_eq!(top_categories, AggregationResult::Buckets { buckets });
}

#[test]
fn integration_range_aggregation() {
    let price_ranges = aggregated("price_ranges", |docs| {
        let ranges = [
            ("cheap", f64::NEG_INFINITY, 50.0),
            ("mid", 50.0, 200.0),
            ("expensive", 200.0, f64::INFINITY),
        ];
        let count = |from: f64, to: f64| {
            price_list(docs).iter().filter(|p| from <= **p && **p < to).count() as u64
        };
        let bucket = |(key, from, to): &(&str, f64, f64)| Bucket {
            key: own(key),
            doc_count: count(*from, *to),
        };
        AggregationResult::Buckets { buckets: ranges.iter().map(bucket).collect() }
    });
    let buckets = vec![
        Bucket { key: own("cheap"), doc_count: 4 },
        Bucket { key: own("mid"), doc_count: 3 },
        Bucket { key: own("expensive"), doc_count: 3 },
    ];
    assert_eq!(price_ranges, AggregationResult::Buckets { buckets });
}

#[test]
fn integration_date_histogram_aggregation() {
    let hourly = aggregated("hourly", |docs| {
        let mut counts: std::collections::BTreeMap<u64, u64> = std::collections::BTreeMap::new();
        for d in docs {
            let hour = float(d.document.get_field("timestamp")) as u64 / 3600 * 3600;
            *counts.entry(hour).or_default() += 1;
        }
        let bucket = |(hour, n): (u64, u64)| Bucket { key: hour.to_string(), doc_count: n };
        AggregationResult::Buckets { buckets: counts.into_iter().map(bucket).collect() }
    });
    match hourly {
        AggregationResult::Buckets { buckets } => {
            // The times are an hour apart, so each document has a bucket of its own.
            assert_eq!(buckets.len(), 10);
            assert!(buckets.iter().all(|b| b.doc_count == 1));
            let keys: Vec<u64> = buckets.iter().map(|b| b.key.parse().unwrap()).collect();
            let mut sorted = keys.clone();
            sorted.sort();
            assert_eq!(keys, sorted);
        }
        other => panic!("{:?}", other),
    }
}

#[test]
fn integration_metric_aggregations() {
    let value = |a: AggregationResult| match a {
        AggregationResult::Metric { value: Some(n) } => f64::from_bits(n.bits),
        other => panic!("{:?}", other),
    };
    let avg = aggregated("avg_price", |docs| {
        metric(price_list(docs).iter().sum::<f64>() / docs.len() as f64)
    });
    assert!((value(avg) - 256.7).abs() < 0.1);
    let sum = aggregated("sum_price", |docs| metric(price_list(docs).iter().sum()));
    assert!((value(sum) - 2567.0).abs() < 0.1);
    let min = aggregated("min_price", |docs| {
        metric(price_list(docs).into_iter().fold(f64::INFINITY, f64::min))
    });
    assert!((value(min) - 15.0).abs() < f64::EPSILON);
    let max = aggregated("max_price", |docs| {
        metric(price_list(docs).into_iter().fold(f64::NEG_INFINITY, f64::max))
    });
    assert!((value(max) - 999.0).abs() < f64::EPSILON);
    let unique = aggregated("unique_categories", |docs| {
        let kinds: std::collections::HashSet<String> = docs.iter().map(category).collect();
        metric(kinds.len() as f64)
    });
    assert!((value(unique) - 3.0).abs() < f64::EPSILON);
}

#[test]
fn integration_sort_by_numeric_field() {
    let (mgr, query) = setup_products();
    let options = SearchOptions { sort: vec![by("price", SortOrder::Asc)], ..options(10) };
    let prices = prices(&arranged(&mgr, &query, &options));
    for w in prices.windows(2) {
        assert!(w[0] <= w[1], "prices not sorted asc: {} > {}", w[0], w[1]);
    }
    assert_eq!(prices, vec![15.0, 20.0, 25.0, 45.0, 60.0, 85.0, 120.0, 499.0, 699.0, 999.0]);
}

#[test]
fn integration_sort_by_score_descending() {
    let (mgr, query) = setup_products();
    let options = SearchOptions { sort: vec![by("_score", SortOrder::Desc)], ..options(10) };
    let result = arranged(&mgr, &query, &options);
    let scores: Vec<f32> = result.documents.iter().map(|d| f32::from_bits(d.score.bits)).collect();
    for w in scores.windows(2) {
        assert!(w[0] >= w[1], "scores not desc: {} < {}", w[0], w[1]);
    }
    assert_eq!(scores.len(), 10);
}

#[test]
fn integration_multi_field_sort() {
    let (mgr, query) = setup_products();
    let sort = vec![by("category", SortOrder::Asc), by("price", SortOrder::Asc)];
    let result = arranged(&mgr, &query, &SearchOptions { sort, ..options(10) });
    let pairs: Vec<(String, f64)> = result
        .documents
        .iter()
        .map(|d| (category(d), float(d.document.get_field("price"))))
        .collect();
    let cats: Vec<&str> = pairs.iter().map(|(c, _)| c.as_str()).collect();
    let mut sorted_cats = cats.clone();
    sorted_cats.sort();
    assert_eq!(cats, sorted_cats);
    for w in pairs.windows(2) {
        assert!(w[0].0 != w[1].0 || w[0].1 <= w[1].1);
    }
}

#[test]
fn integration_sort_values_populated() {
    let (mgr, query) = setup_products();
    let options = SearchOptions { sort: vec![by("price", SortOrder::Asc)], ..options(3) };
    let result = arranged(&mgr, &query, &options);
    assert_eq!(result.documents.len(), 3);
    for doc in &result.documents {
        assert_eq!(doc.sort.len(), 1, "expected 1 sort value per hit");
        assert!(matches!(doc.sort[0], SortValue::Number(_)), "expected numeric sort value");
    }
}

#[test]
fn integration_search_after_pagination() {
    let (mgr, query) = setup_products();
    let sort = vec![by("price", SortOrder::Asc)];
    let page1 = arranged(&mgr, &query, &SearchOptions { sort: sort.clone(), ..options(3) });
    assert_eq!(page1.documents.len(), 3);

    let cursor = page1.documents.last().unwrap().sort.clone();
    assert!(!cursor.is_empty());
    let options_p2 =
        SearchOptions { sort: sort.clone(), search_after: Some(cursor), ..options(3) };
    let page2 = arranged(&mgr, &query, &options_p2);
    assert_eq!(page2.documents.len(), 3);

    let p1_ids: Vec<&str> = page1.documents.iter().map(|d| d.document.id.as_str()).collect();
    for d in &page2.documents {
        assert!(!p1_ids.contains(&d.document.id.as_str()));
    }
    let last_p1_price = match &page1.documents.last().unwrap().sort[0] {
        SortValue::Number(n) => f64::from_bits(n.bits),
        other => panic!("{:?}", other),
    };
    for price in prices(&page2) {
        assert!(price > last_p1_price, "page 2 doc price {} should be > cursor", price);
    }
}

#[test]
fn integration_collapse_by_field() {
    let (mgr, query) = setup_products();
    let options = SearchOptions { collapse: Some(own("category")), ..options(10) };
    let result = arranged(&mgr, &query, &options);
    assert_eq!(result.documents.len(), 3);
    let categories: Vec<String> = result.documents.iter().map(category).collect();
    let unique: std::collections::HashSet<&String> = categories.iter().collect();
    assert_eq!(unique.len(), categories.len(), "categories not unique after collapse");
}

#[test]
fn integration_combined_agg_sort_collapse() {
    let (mgr, query) = setup_products();
    let aggregate = |docs: &Vec<ScoredDocument>| {
        let sum: f64 = docs.iter().map(|d| float(d.document.get_field("price"))).sum();
        let mut aggs: Aggregations = Table::new();
        let avg = num(sum / docs.len() as f64);
        aggs.insert(own("avg_price"), AggregationResult::Metric { value: Some(avg) });
        let buckets = vec![Bucket { key: own("all"), doc_count: docs.len() as u64 }];
        aggs.insert(own("top_cats"), AggregationResult::Buckets { buckets });
        aggs
    };
    let options = SearchOptions {
        sort: vec![by("price", SortOrder::Desc)],
        collapse: Some(own("category")),
        ..options(10)
    };
    let result =
        mgr.search_with_options("products", &query, &options, run, aggregate).ok().unwrap();

    // The aggregations are over all documents that match.
    assert!(result.aggregations.contains_key(&own("avg_price")));
    assert!(result.aggregations.contains_key(&own("top_cats")));
    match result.aggregations.get(&own("avg_price")) {
        Some(AggregationResult::Metric { value: Some(v) }) => {
            assert!((f64::from_bits(v.bits) - 256.7).abs() < 0.1)
        }
        other => panic!("{:?}", other),
    }
    assert_eq!(result.total, 10);
    assert_eq!(result.documents.len(), 3);
    assert_eq!(prices(&result), vec![999.0, 85.0, 60.0]);
}

#[test]
fn a_page_of_arranged_results() {
    let (mgr, query) = setup_products();
    let sort = vec![by("price", SortOrder::Desc)];
    let page = arranged(&mgr, &query, &SearchOptions { from: 1, sort, ..options(2) });
    assert_eq!(prices(&page), vec![699.0, 499.0]);
    assert_eq!(page.total, 10);
    let far = arranged(&mgr, &query, &SearchOptions { from: 20, ..options(2) });
    assert!(far.documents.is_empty());

    // The usual search shows ten documents at most, and counts them all.
    let (mut mgr, _) = (mgr, ());
    create(&mut mgr, "many");
    let mut mapping = FieldMapping::new();
    for i in 0..25 {
        let doc = Document::new(&format!("d{}", i)).with_field("kind", text("thing"));
        mapping = put(&mut mgr, "many", &doc, &mapping).ok().unwrap();
    }
    finish(&mgr, "many");
    let things = mgr.search("many", &full_text("kind", "thing", Operator::Or), run).ok().unwrap();
    assert_eq!((things.documents.len(), things.total), (10, 25));
}

#[test]
fn a_new_field_commits_what_was_written() {
    let mut mgr: Manager = CollectionIndexManager::new_in_ram();
    create(&mut mgr, "c");
    let doc = Document::new("1").with_field("a", text("x"));
    let refused = |_: &Engine| Err(DbError::IndexError(own("disk")));
    let r = mgr.index_document("c", &doc, &FieldMapping::new(), 1, open_collection, write, refused);
    assert!(matches!(r, Err(DbError::IndexError(_))));
    assert!(mgr.commit("c", |_: &Engine| Ok(())).is_ok());
    let mapping = put(&mut mgr, "c", &doc, &FieldMapping::new()).ok().unwrap();
    // The index is opened anew behind the commit.
    let more = Document::new("2").with_field("b", text("y"));
    let opened = |o: Opening, committed: Option<u64>| {
        assert!(committed.is_some());
        open_collection(o, committed)
    };
    let grown = mgr.index_document("c", &more, &mapping, 1, opened, write, commit).ok().unwrap();
    assert_eq!(grown.field_count(), 2);
    // Nothing new: nothing is committed.
    let r = mgr.index_document("c", &doc, &mapping, 1, open_collection, write, refused);
    assert!(r.is_ok());
}

#[test]
fn unknown_collections_are_refused() {
    let mut mgr: Manager = CollectionIndexManager::new("/data");
    match mgr.search("x", &term("_id", "1"), run) {
        Err(e) => assert!(e.message().contains("x")),
        Ok(_) => panic!("found"),
    }
    assert!(mgr.delete_document("x", "1", delete).is_err());
    assert!(mgr.commit("x", |_: &Engine| Ok(())).is_err());
    let mut place = None;
    let r = mgr.create_collection("col", |o: Opening, _: Option<()>| {
        place = Some((o.base_path, o.directory));
        Err(DbError::IndexError(own("disk")))
    });
    assert!(r.is_err());
    let (base, directory) = place.unwrap();
    assert_eq!(base, Some(own("/data")));
    assert_eq!(directory, "idx_col");
}
