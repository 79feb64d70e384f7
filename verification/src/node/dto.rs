//! Requests and responses of the REST API, and their conversion to and from the
//! domain types.

use vstd::prelude::*;

use crate::index::schema_builder::SchemaConfig;
use crate::json::{Json, JsonView, Number};
use crate::model::arrangement::number_place;
use crate::model::document::{
    lemma_array_view, lemma_value_views_push, value_views, Document, DocumentView,
    FieldValue, FieldValueView,
};
use crate::model::mapping::MappedFieldType;
use crate::model::query::{
    lemma_bool_view, query_views, BoolQuery, FullTextQuery, Operator, Query, QueryView, RangeQuery,
    Score, ScoredDocument, SearchOptions, SearchResult, SortClause, SortOrder, TermQuery,
};
use crate::table::Table;
use crate::text;

verus! {

// ---------------------------------------------------------------------------
// Documents
// ---------------------------------------------------------------------------

/// Request to index one document.  Without an `id` the server makes one up.
#[derive(Debug)]
pub struct IndexDocumentRequest {
    pub id: Option<String>,
    /// The fields as name/value pairs.
    pub fields: Vec<(String, Json)>,
}

/// Response to a document that was indexed.
#[derive(Clone, Debug)]
pub struct IndexDocumentResponse {
    pub id: String,
    /// `"created"` or `"updated"`.
    pub result: String,
    pub version: u64,
}

// ---------------------------------------------------------------------------
// The query language
// ---------------------------------------------------------------------------

/// A query as clients write it.
#[derive(Debug)]
pub enum QueryDsl {
    /// Full-text search: a field with its options.
    Match(Vec<(String, MatchFieldQuery)>),
    /// Exact match: a field with its value.
    Term(Vec<(String, String)>),
    /// Numeric range: a field with its bounds.
    Range(Vec<(String, RangeFieldQuery)>),
    /// Boolean combination.
    Bool(BoolQueryDsl),
}

/// The options of a `match` query.
#[derive(Clone, Debug)]
pub struct MatchFieldQuery {
    pub query: String,
    /// `"and"` or `"or"`.
    pub operator: String,
}

/// The operator of a `match` query that names none.
pub fn default_operator_str() -> (s: String)
    ensures
        s@ == "or"@,
{
    "or".to_owned()
}

/// The bounds of a `range` query, both inclusive.
#[derive(Clone, Debug)]
pub struct RangeFieldQuery {
    pub gte: Option<Number>,
    pub lte: Option<Number>,
}

/// The clauses of a `bool` query.
#[derive(Debug)]
pub struct BoolQueryDsl {
    pub must: Vec<QueryDsl>,
    pub should: Vec<QueryDsl>,
    pub must_not: Vec<QueryDsl>,
}

/// The operator that a client's word stands for: `And` for the word "and" in
/// upper or lower case letters, `Or` for every other word.
pub open spec fn operator_of(word: Seq<char>) -> Operator {
    if word.len() == 3 && (word[0] == 'a' || word[0] == 'A') && (word[1] == 'n' || word[1] == 'N')
        && (word[2] == 'd' || word[2] == 'D') {
        Operator::And
    } else {
        Operator::Or
    }
}

/// The operator that a client's word stands for.
pub fn parse_operator(word: &str) -> (op: Operator)
    ensures
        op == operator_of(word@),
{
    let c = text::chars_of(word);
    if c.len() == 3 && (c[0] == 'a' || c[0] == 'A') && (c[1] == 'n' || c[1] == 'N') && (c[2] == 'd'
        || c[2] == 'D') {
        Operator::And
    } else {
        Operator::Or
    }
}

impl QueryDsl {
    /// The query that this one stands for.  Of a `match`, `term` or `range`
    /// only the first field counts; without any field the query is empty.
    pub open spec fn meaning(self) -> QueryView
        decreases self,
    {
        match self {
            QueryDsl::Match(entries) => if entries@.len() == 0 {
                QueryView::FullText {
                    field: "_body"@,
                    query: Seq::empty(),
                    operator: Operator::Or,
                }
            } else {
                QueryView::FullText {
                    field: entries@[0].0@,
                    query: entries@[0].1.query@,
                    operator: operator_of(entries@[0].1.operator@),
                }
            },
            QueryDsl::Term(entries) => if entries@.len() == 0 {
                QueryView::Term { field: Seq::empty(), value: Seq::empty() }
            } else {
                QueryView::Term { field: entries@[0].0@, value: entries@[0].1@ }
            },
            QueryDsl::Range(entries) => if entries@.len() == 0 {
                QueryView::Range { field: Seq::empty(), gte: None, lte: None }
            } else {
                QueryView::Range {
                    field: entries@[0].0@,
                    gte: entries@[0].1.gte,
                    lte: entries@[0].1.lte,
                }
            },
            QueryDsl::Bool(b) => QueryView::Bool {
                must: Seq::new(
                    b.must@.len(),
                    |i: int|
                        if 0 <= i < b.must@.len() {
                            b.must@[i].meaning()
                        } else {
                            arbitrary()
                        },
                ),
                should: Seq::new(
                    b.should@.len(),
                    |i: int|
                        if 0 <= i < b.should@.len() {
                            b.should@[i].meaning()
                        } else {
                            arbitrary()
                        },
                ),
                must_not: Seq::new(
                    b.must_not@.len(),
                    |i: int|
                        if 0 <= i < b.must_not@.len() {
                            b.must_not@[i].meaning()
                        } else {
                            arbitrary()
                        },
                ),
            },
        }
    }

    /// Convert to the core query type.
    pub fn into_core_query(self) -> (q: Query)
        ensures
            q@ == self.meaning(),
            self is Range && self->Range_0@.len() > 0 ==> (q matches Query::Range(range)
                && range.field@ == self->Range_0@[0].0@ && range.gte == self->Range_0@[0].1.gte
                && range.lte == self->Range_0@[0].1.lte),
            self is Term && self->Term_0@.len() > 0 ==> (q matches Query::Term(term)
                && term.field@ == self->Term_0@[0].0@ && term.value@ == self->Term_0@[0].1@),
            self is Match && self->Match_0@.len() > 0 ==> (q matches Query::FullText(words)
                && words.field@ == self->Match_0@[0].0@ && words.query@
                == self->Match_0@[0].1.query@),
    {
        core_query(&self)
    }
}

impl From<QueryDsl> for Query {
    fn from(dsl: QueryDsl) -> (q: Query)
        ensures
            q@ == dsl.meaning(),
    {
        dsl.into_core_query()
    }
}

impl vstd::std_specs::convert::FromSpecImpl<QueryDsl> for Query {
    open spec fn obeys_from_spec() -> bool {
        false
    }

    open spec fn from_spec(dsl: QueryDsl) -> Query {
        arbitrary()
    }
}

/// What a list of queries stands for.
pub open spec fn meanings(qs: Seq<QueryDsl>) -> Seq<QueryView> {
    Seq::new(qs.len(), |i: int| qs[i].meaning())
}

proof fn lemma_bool_meaning(b: BoolQueryDsl)
    ensures
        QueryDsl::Bool(b).meaning() == (QueryView::Bool {
            must: meanings(b.must@),
            should: meanings(b.should@),
            must_not: meanings(b.must_not@),
        }),
{
    reveal_with_fuel(QueryDsl::meaning, 2);
    let v = QueryDsl::Bool(b).meaning();
    assert(v is Bool);
    assert(v->must =~= meanings(b.must@));
    assert(v->should =~= meanings(b.should@));
    assert(v->must_not =~= meanings(b.must_not@));
}

fn core_query(dsl: &QueryDsl) -> (q: Query)
    ensures
        q@ == dsl.meaning(),
    decreases dsl,
{
    match dsl {
        QueryDsl::Match(entries) => {
            if entries.len() == 0 {
                Query::FullText(
                    FullTextQuery {
                        field: "_body".to_owned(),
                        query: String::new(),
                        operator: Operator::Or,
                    },
                )
            } else {
                let (field, opts) = &entries[0];
                Query::FullText(
                    FullTextQuery {
                        field: field.clone(),
                        query: opts.query.clone(),
                        operator: parse_operator(opts.operator.as_str()),
                    },
                )
            }
        },
        QueryDsl::Term(entries) => {
            if entries.len() == 0 {
                Query::Term(TermQuery { field: String::new(), value: String::new() })
            } else {
                let (field, value) = &entries[0];
                Query::Term(TermQuery { field: field.clone(), value: value.clone() })
            }
        },
        QueryDsl::Range(entries) => {
            if entries.len() == 0 {
                Query::Range(RangeQuery { field: String::new(), gte: None, lte: None })
            } else {
                let (field, bounds) = &entries[0];
                Query::Range(
                    RangeQuery { field: field.clone(), gte: bounds.gte, lte: bounds.lte },
                )
            }
        },
        QueryDsl::Bool(b) => {
            let must = core_queries(&b.must);
            let should = core_queries(&b.should);
            let must_not = core_queries(&b.must_not);
            let out = BoolQuery { must, should, must_not };
            proof {
                lemma_bool_meaning(*b);
                lemma_bool_view(out);
            }
            Query::Bool(out)
        },
    }
}

fn core_queries(qs: &Vec<QueryDsl>) -> (out: Vec<Query>)
    ensures
        query_views(out@) == meanings(qs@),
    decreases qs,
{
    let mut out: Vec<Query> = Vec::new();
    let mut i: usize = 0;
    while i < qs.len()
        invariant
            i <= qs@.len(),
            query_views(out@) == meanings(qs@).take(i as int),
        decreases qs@.len() - i,
    {
        let q = core_query(&qs[i]);
        assert(meanings(qs@).take(i as int).push(q@) =~= meanings(qs@).take(i + 1));
        assert(query_views(out@.push(q)) =~= query_views(out@).push(q@));
        out.push(q);
        i = i + 1;
    }
    assert(meanings(qs@).take(i as int) =~= meanings(qs@));
    out
}

// ---------------------------------------------------------------------------
// Search
// ---------------------------------------------------------------------------

/// One sort criterion.
#[derive(Clone, Debug)]
pub struct SortField {
    pub field: String,
    /// `"asc"` or `"desc"`.
    pub order: String,
}

/// The order of a sort criterion that names none.
pub fn default_sort_order() -> (s: String)
    ensures
        s@ == "desc"@,
{
    "desc".to_owned()
}

/// What to highlight, and how.
#[derive(Clone, Debug)]
pub struct HighlightOptions {
    pub fields: Vec<String>,
    pub pre_tag: String,
    pub post_tag: String,
}

/// The tag before a highlighted term.
pub fn default_pre_tag() -> (s: String)
    ensures
        s@ == "<em>"@,
{
    "<em>".to_owned()
}

/// The tag behind a highlighted term.
pub fn default_post_tag() -> (s: String)
    ensures
        s@ == "</em>"@,
{
    "</em>".to_owned()
}

/// A search request.
#[derive(Debug)]
pub struct SearchRequest {
    pub query: QueryDsl,
    pub size: Option<usize>,
    pub from: Option<usize>,
    pub highlight: Option<HighlightOptions>,
    pub sort: Option<Vec<SortField>>,
}

/// The order of a sort criterion: ascending where it says so.
pub open spec fn sort_order_of(word: Seq<char>) -> SortOrder {
    if word == "asc"@ {
        SortOrder::Asc
    } else {
        SortOrder::Desc
    }
}

impl SearchRequest {
    /// How the request wants its results arranged: ten of them where it names no number,
    /// from the first on where it does not say from where.
    pub fn to_search_options(&self) -> (o: SearchOptions)
        ensures
            o.from == match self.from {
                Some(n) => n,
                None => 0,
            },
            o.size == match self.size {
                Some(n) => n,
                None => 10,
            },
            o.search_after is None,
            o.collapse is None,
            match self.sort {
                Some(fields) => {
                    &&& o.sort@.len() == fields@.len()
                    &&& forall|i: int|
                        0 <= i < fields@.len() ==> (#[trigger] o.sort@[i]).field@
                            == fields@[i].field@ && o.sort@[i].order == sort_order_of(
                            fields@[i].order@,
                        )
                },
                None => o.sort@.len() == 0,
            },
    {
        let mut sort: Vec<SortClause> = Vec::new();
        if let Some(fields) = &self.sort {
            let mut i: usize = 0;
            while i < fields.len()
                invariant
                    i <= fields@.len(),
                    sort@.len() == i,
                    forall|k: int|
                        0 <= k < i ==> (#[trigger] sort@[k]).field@ == fields@[k].field@
                            && sort@[k].order == sort_order_of(fields@[k].order@),
                decreases fields@.len() - i,
            {
                let order = if text::same(fields[i].order.as_str(), "asc") {
                    SortOrder::Asc
                } else {
                    SortOrder::Desc
                };
                sort.push(SortClause { field: fields[i].field.clone(), order });
                i = i + 1;
            }
        }
        SearchOptions {
            from: match self.from {
                Some(n) => n,
                None => 0,
            },
            size: match self.size {
                Some(n) => n,
                None => 10,
            },
            sort,
            search_after: None,
            collapse: None,
        }
    }
}

/// The number of hits of a request that names none.
pub fn default_size() -> (n: Option<usize>)
    ensures
        n == Some(10usize),
{
    Some(10)
}

/// One search hit.
#[derive(Debug)]
pub struct Hit {
    pub id: String,
    pub score: Score,
    /// The document's fields as a JSON object.
    pub source: Json,
    pub highlight: Option<Json>,
}

/// The number of hits.
#[derive(Clone, Debug)]
pub struct Total {
    pub value: u64,
    /// `"eq"` for an exact count.
    pub relation: String,
}

/// The hits of a search.
#[derive(Debug)]
pub struct Hits {
    pub total: Total,
    pub hits: Vec<Hit>,
}

/// A search response.
#[derive(Debug)]
pub struct SearchResponse {
    pub hits: Hits,
    pub took: u64,
    pub timed_out: bool,
}

/// `hit` shows the scored document: its id, its score and its fields.
pub open spec fn hit_shows(hit: Hit, scored: ScoredDocument) -> bool {
    &&& hit.id@ == scored.document.id@
    &&& hit.score == scored.score
    &&& object_of(hit.source@, scored.document.fields)
    &&& hit.highlight is None
}

/// Show a scored document as a hit.
pub fn scored_doc_to_hit(scored: &ScoredDocument) -> (hit: Hit)
    ensures
        hit_shows(hit, *scored),
{
    let source = fields_to_value(&scored.document.fields);
    Hit { id: scored.document.id.clone(), score: scored.score, source, highlight: None }
}

impl SearchResponse {
    /// The response that shows a search result.
    pub fn from_search_result(result: SearchResult) -> (r: SearchResponse)
        ensures
            r.hits.hits@.len() == result.documents@.len(),
            forall|i: int|
                0 <= i < result.documents@.len() ==> hit_shows(
                    #[trigger] r.hits.hits@[i],
                    result.documents@[i],
                ),
            r.hits.total.value == result.total,
            r.hits.total.relation@ == "eq"@,
            r.took == result.took_ms,
            !r.timed_out,
    {
        let mut hits: Vec<Hit> = Vec::new();
        let mut i: usize = 0;
        while i < result.documents.len()
            invariant
                i <= result.documents@.len(),
                hits@.len() == i,
                forall|j: int|
                    0 <= j < i ==> hit_shows(#[trigger] hits@[j], result.documents@[j]),
            decreases result.documents@.len() - i,
        {
            hits.push(scored_doc_to_hit(&result.documents[i]));
            i = i + 1;
        }
        SearchResponse {
            hits: Hits {
                total: Total { value: result.total, relation: "eq".to_owned() },
                hits,
            },
            took: result.took_ms,
            timed_out: false,
        }
    }
}

/// The parameters of a query-string search.
#[derive(Clone, Debug)]
pub struct SimpleSearchParams {
    pub q: String,
    pub size: usize,
    pub consistency: Option<String>,
}

/// The number of hits of a query-string search that names none.
pub fn default_simple_size() -> (n: usize)
    ensures
        n == 10,
{
    10
}

/// The parameters of a document read.
#[derive(Clone, Debug)]
pub struct GetDocumentParams {
    pub consistency: Option<String>,
}

// ---------------------------------------------------------------------------
// Bulk
// ---------------------------------------------------------------------------

/// One action of a bulk request.
#[derive(Clone, Debug)]
pub enum BulkAction {
    /// Index the document on the next line.
    Index(BulkActionMeta),
    /// Delete a document.
    Delete(BulkActionMeta),
}

/// What a bulk action is about.
#[derive(Clone, Debug)]
pub struct BulkActionMeta {
    pub id: Option<String>,
}

/// The result of one bulk action.
#[derive(Clone, Debug)]
pub struct BulkItem {
    /// `"index"`, `"delete"` or `"unknown"`.
    pub action: String,
    pub id: String,
    pub status: u16,
    pub error: Option<String>,
}

/// The response to a bulk request.
#[derive(Clone, Debug)]
pub struct BulkResponse {
    pub took: u64,
    /// Whether any item has an error.
    pub errors: bool,
    pub items: Vec<BulkItem>,
}

// ---------------------------------------------------------------------------
// Cluster
// ---------------------------------------------------------------------------

/// The health of the cluster.
#[derive(Clone, Debug)]
pub struct ClusterHealthResponse {
    /// `"green"`, `"yellow"` or `"red"`.
    pub status: String,
    pub number_of_nodes: usize,
    pub leader_id: Option<u64>,
    pub is_leader: bool,
}

/// Request to add a node to the cluster.
#[derive(Clone, Debug)]
pub struct JoinNodeRequest {
    /// `host:port`.
    pub address: String,
}

/// Statistics of a node.
#[derive(Clone, Debug)]
pub struct StatsResponse {
    pub node_id: u64,
    pub collections: usize,
    pub is_leader: bool,
    pub current_term: u64,
}

// ---------------------------------------------------------------------------
// Collections
// ---------------------------------------------------------------------------

/// Request to create a collection.
#[derive(Debug)]
pub struct CreateCollectionRequest {
    pub schema: Option<SchemaConfig>,
    /// The settings of the collection, as a JSON text.
    pub settings: Option<String>,
}

/// What is known of a collection.
#[derive(Clone, Debug)]
pub struct CollectionInfoResponse {
    pub name: String,
    pub doc_count: u64,
    /// The fields with their types; `None` where the collection has just been created.
    pub mapping: Option<Vec<(String, MappedFieldType)>>,
    /// The settings of the collection, as a JSON text.
    pub settings: String,
}

// ---------------------------------------------------------------------------
// Errors
// ---------------------------------------------------------------------------

/// What went wrong.
#[derive(Clone, Debug)]
pub struct ErrorDetail {
    pub error_type: String,
    pub reason: String,
}

/// The error envelope of every endpoint.
#[derive(Clone, Debug)]
pub struct ErrorResponse {
    pub error: ErrorDetail,
    pub status: u16,
}

/// The mathematical value of an [`ErrorResponse`].
pub struct ErrorView {
    pub status: u16,
    pub error_type: Seq<char>,
    pub reason: Seq<char>,
}

impl View for ErrorResponse {
    type V = ErrorView;

    open spec fn view(&self) -> ErrorView {
        ErrorView {
            status: self.status,
            error_type: self.error.error_type@,
            reason: self.error.reason@,
        }
    }
}

impl ErrorView {
    /// 404.
    pub open spec fn not_found(reason: Seq<char>) -> ErrorView {
        ErrorView { status: 404, error_type: "not_found"@, reason }
    }

    /// 400.
    pub open spec fn bad_request(reason: Seq<char>) -> ErrorView {
        ErrorView { status: 400, error_type: "invalid_input"@, reason }
    }

    /// 500.
    pub open spec fn internal(reason: Seq<char>) -> ErrorView {
        ErrorView { status: 500, error_type: "internal_error"@, reason }
    }

    /// 503.
    pub open spec fn service_unavailable(reason: Seq<char>) -> ErrorView {
        ErrorView { status: 503, error_type: "service_unavailable"@, reason }
    }

    /// 401.
    pub open spec fn unauthorized(reason: Seq<char>) -> ErrorView {
        ErrorView { status: 401, error_type: "unauthorized"@, reason }
    }

    /// 307.
    pub open spec fn redirect(reason: Seq<char>) -> ErrorView {
        ErrorView { status: 307, error_type: "redirect"@, reason }
    }
}

impl ErrorResponse {
    /// An error response.
    pub fn new(status: u16, error_type: &str, reason: &str) -> (r: Self)
        ensures
            r@ == (ErrorView { status, error_type: error_type@, reason: reason@ }),
    {
        ErrorResponse {
            error: ErrorDetail { error_type: error_type.to_owned(), reason: reason.to_owned() },
            status,
        }
    }

    /// 404 Not Found.
    pub fn not_found(reason: &str) -> (r: Self)
        ensures
            r@ == ErrorView::not_found(reason@),
    {
        Self::new(404, "not_found", reason)
    }

    /// 400 Bad Request.
    pub fn bad_request(reason: &str) -> (r: Self)
        ensures
            r@ == ErrorView::bad_request(reason@),
    {
        Self::new(400, "invalid_input", reason)
    }

    /// 500 Internal Server Error.
    pub fn internal(reason: &str) -> (r: Self)
        ensures
            r@ == ErrorView::internal(reason@),
    {
        Self::new(500, "internal_error", reason)
    }

    /// 503 Service Unavailable.
    pub fn service_unavailable(reason: &str) -> (r: Self)
        ensures
            r@ == ErrorView::service_unavailable(reason@),
    {
        Self::new(503, "service_unavailable", reason)
    }

    /// 401 Unauthorized.
    pub fn unauthorized(reason: &str) -> (r: Self)
        ensures
            r@ == ErrorView::unauthorized(reason@),
    {
        Self::new(401, "unauthorized", reason)
    }

    /// 307 Temporary Redirect.
    pub fn redirect(reason: &str) -> (r: Self)
        ensures
            r@ == ErrorView::redirect(reason@),
    {
        Self::new(307, "redirect", reason)
    }
}

// ---------------------------------------------------------------------------
// Field values and JSON
// ---------------------------------------------------------------------------

/// The JSON form of a field value.  A number that is not finite has none and
/// becomes null.
pub open spec fn json_of(fv: FieldValueView) -> JsonView
    decreases fv,
{
    match fv {
        FieldValueView::Text(s) => JsonView::Text(s),
        FieldValueView::Number(n) => if n.finite() {
            JsonView::Number(n)
        } else {
            JsonView::Null
        },
        FieldValueView::Boolean(b) => JsonView::Bool(b),
        FieldValueView::Array(items) => JsonView::Array(
            Seq::new(
                items.len(),
                |i: int|
                    if 0 <= i < items.len() {
                        json_of(items[i])
                    } else {
                        JsonView::Null
                    },
            ),
        ),
    }
}

/// The field value of a JSON value; null and objects have none.  Of an array,
/// the items without a field value are left out.
pub open spec fn field_value_of(v: JsonView) -> Option<FieldValueView>
    decreases v,
{
    match v {
        JsonView::Text(s) => Some(FieldValueView::Text(s)),
        JsonView::Number(n) => Some(FieldValueView::Number(n)),
        JsonView::Bool(b) => Some(FieldValueView::Boolean(b)),
        JsonView::Array(items) => Some(FieldValueView::Array(field_values_of(items))),
        _ => None,
    }
}

/// The field values of those items that have one.
pub open spec fn field_values_of(items: Seq<JsonView>) -> Seq<FieldValueView>
    decreases items,
{
    if items.len() == 0 {
        Seq::empty()
    } else {
        let rest = field_values_of(items.subrange(0, items.len() - 1));
        match field_value_of(items[items.len() - 1]) {
            Some(fv) => rest.push(fv),
            None => rest,
        }
    }
}

/// The values of a list of JSON values.
pub open spec fn json_views(items: Seq<Json>) -> Seq<JsonView> {
    Seq::new(items.len(), |i: int| items[i]@)
}

pub proof fn lemma_json_array_view(items: Vec<Json>)
    ensures
        Json::Array(items)@ == JsonView::Array(json_views(items@)),
{
    reveal_with_fuel(<Json as View>::view, 2);
    let v = Json::Array(items)@;
    assert(v is Array);
    assert(v->Array_0 =~= json_views(items@));
}

/// The JSON form of a field value.
pub fn field_value_to_json(fv: &FieldValue) -> (v: Json)
    ensures
        v@ == json_of(fv@),
    decreases fv,
{
    match fv {
        FieldValue::Text(s) => Json::Text(s.clone()),
        FieldValue::Number(n) => {
            if n.is_finite() {
                Json::Number(*n)
            } else {
                Json::Null
            }
        },
        FieldValue::Boolean(b) => Json::Bool(*b),
        FieldValue::Array(items) => {
            let ghost forms = Seq::new(items@.len(), |i: int| json_of(items@[i]@));
            let mut out: Vec<Json> = Vec::new();
            let mut i: usize = 0;
            while i < items.len()
                invariant
                    i <= items@.len(),
                    forms == Seq::new(items@.len(), |i: int| json_of(items@[i]@)),
                    json_views(out@) == forms.take(i as int),
                    fv matches FieldValue::Array(a) && a == items,
                decreases items@.len() - i,
            {
                let item = field_value_to_json(&items[i]);
                assert(forms.take(i as int).push(item@) =~= forms.take(i + 1));
                assert(json_views(out@.push(item)) =~= json_views(out@).push(item@));
                out.push(item);
                i = i + 1;
            }
            proof {
                assert(forms.take(i as int) =~= forms);
                lemma_json_array_view(out);
                lemma_array_view(*items);
                reveal_with_fuel(json_of, 2);
                assert(json_of(fv@)->Array_0 =~= forms);
            }
            Json::Array(out)
        },
    }
}

/// The field value of a JSON value.
pub fn json_to_field_value(v: &Json) -> (r: Option<FieldValue>)
    ensures
        match r {
            Some(fv) => field_value_of(v@) == Some(fv@),
            None => field_value_of(v@) is None,
        },
    decreases v,
{
    match v {
        Json::Text(s) => Some(FieldValue::Text(s.clone())),
        Json::Number(n) => Some(FieldValue::Number(*n)),
        Json::Bool(b) => Some(FieldValue::Boolean(*b)),
        Json::Array(items) => {
            let ghost all = json_views(items@);
            let mut out: Vec<FieldValue> = Vec::new();
            let mut i: usize = 0;
            assert(value_views(out@) =~= field_values_of(all.take(0)));
            while i < items.len()
                invariant
                    i <= items@.len(),
                    all == json_views(items@),
                    value_views(out@) == field_values_of(all.take(i as int)),
                    v matches Json::Array(a) && a == items,
                decreases items@.len() - i,
            {
                let item = json_to_field_value(&items[i]);
                proof {
                    let next = all.take(i + 1);
                    assert(next.subrange(0, next.len() - 1) =~= all.take(i as int));
                    assert(next[next.len() - 1] == items@[i as int]@);
                }
                match item {
                    Some(fv) => {
                        proof {
                            lemma_value_views_push(out@, fv);
                        }
                        out.push(fv);
                    },
                    None => {},
                }
                i = i + 1;
            }
            proof {
                assert(all.take(i as int) =~= all);
                lemma_array_view(out);
                lemma_json_array_view(*items);
            }
            Some(FieldValue::Array(out))
        },
        Json::Null => None,
        Json::Object(_) => None,
    }
}

/// `v` is the JSON object whose members are the JSON forms of `fields`, in the
/// order of the table.
pub open spec fn object_of(v: JsonView, fields: Table<String, FieldValue>) -> bool {
    &&& v is Object
    &&& v->Object_0.len() == fields.entries().len()
    &&& forall|i: int|
        0 <= i < fields.entries().len() ==> (#[trigger] v->Object_0[i]) == (
            fields.entries()[i].0@,
            json_of(fields.entries()[i].1@),
        )
}

/// The JSON object of named field values.
pub fn fields_to_value(fields: &Table<String, FieldValue>) -> (v: Json)
    ensures
        object_of(v@, *fields),
{
    let n: usize = fields.len();
    let mut out: Vec<(String, Json)> = Vec::new();
    let mut i: usize = 0;
    while i < n
        invariant
            n == fields.entries().len(),
            i <= n,
            out@.len() == i,
            forall|j: int|
                0 <= j < i ==> (#[trigger] out@[j]).0@ == fields.entries()[j].0@ && out@[j].1@
                    == json_of(fields.entries()[j].1@),
        decreases n - i,
    {
        let (name, value) = fields.entry(i);
        out.push((name.clone(), field_value_to_json(value)));
        i = i + 1;
    }
    proof {
        reveal_with_fuel(<Json as View>::view, 2);
    }
    Json::Object(out)
}

// ---------------------------------------------------------------------------
// Documents from requests
// ---------------------------------------------------------------------------

/// `base` with the given members put in one after the other.  A member without
/// a field value is left out; of two with one name the later counts.
pub open spec fn with_members(
    base: Map<Seq<char>, FieldValueView>,
    members: Seq<(String, Json)>,
) -> Map<Seq<char>, FieldValueView>
    decreases members.len(),
{
    if members.len() == 0 {
        base
    } else {
        let rest = with_members(base, members.drop_last());
        match field_value_of(members.last().1@) {
            Some(fv) => rest.insert(members.last().0@, fv),
            None => rest,
        }
    }
}

/// The document with the given id and the fields of `members`.
pub open spec fn document_of(id: Seq<char>, members: Seq<(String, Json)>) -> DocumentView {
    DocumentView { id, fields: with_members(Map::empty(), members) }
}

/// The document with the given id and the fields of `members`.
pub fn build_document(id: &str, members: &Vec<(String, Json)>) -> (d: Document)
    ensures
        d@ == document_of(id@, members@),
{
    let mut d = Document::new(id);
    let mut i: usize = 0;
    assert(members@.take(0) =~= Seq::<(String, Json)>::empty());
    while i < members.len()
        invariant
            i <= members@.len(),
            d@.id == id@,
            d@.fields == with_members(Map::empty(), members@.take(i as int)),
        decreases members@.len() - i,
    {
        let (name, value) = &members[i];
        proof {
            let next = members@.take(i + 1);
            assert(next.drop_last() =~= members@.take(i as int));
            assert(next.last() == members@[i as int]);
        }
        match json_to_field_value(value) {
            Some(fv) => {
                d.set_field(name.clone(), fv);
            },
            None => {},
        }
        i = i + 1;
    }
    assert(members@.take(i as int) =~= members@);
    d
}

/// A lower-case hexadecimal digit.
pub open spec fn is_hex(c: char) -> bool {
    ('0' <= c <= '9') || ('a' <= c <= 'f')
}

/// The hyphenated form of a UUID: thirty-six characters in groups of eight,
/// four, four, four and twelve hexadecimal digits.
pub open spec fn hyphenated(s: Seq<char>) -> bool {
    &&& s.len() == 36
    &&& forall|i: int|
        0 <= i < 36 ==> if i == 8 || i == 13 || i == 18 || i == 23 {
            #[trigger] s[i] == '-'
        } else {
            is_hex(s[i])
        }
}

/// `uuid::Uuid::new_v4`, written out by its `Display`: a random identifier in
/// hyphenated form.  Which one it is, is left to chance.
#[verifier::external_body]
pub(crate) fn fresh_uuid() -> (id: String)
    ensures
        hyphenated(id@),
{
    uuid::Uuid::new_v4().to_string()
}

/// The document that a request asks to index, under `generated` where the
/// request names no id.
pub fn request_to_document_with(req: &IndexDocumentRequest, generated: &str) -> (d: Document)
    ensures
        d@ == document_of(
            match req.id {
                Some(id) => id@,
                None => generated@,
            },
            req.fields@,
        ),
{
    match &req.id {
        Some(id) => build_document(id.as_str(), &req.fields),
        None => build_document(generated, &req.fields),
    }
}

/// The document that a request asks to index, under a fresh id where the
/// request names none.
pub fn request_to_document(req: IndexDocumentRequest) -> (d: Document)
    ensures
        d@ == document_of(d@.id, req.fields@),
        match req.id {
            Some(id) => d@.id == id@,
            None => hyphenated(d@.id),
        },
{
    let generated = fresh_uuid();
    request_to_document_with(&req, generated.as_str())
}

// ---------------------------------------------------------------------------
// Laws
// ---------------------------------------------------------------------------

/// Every number in `fv` is finite.
pub open spec fn all_finite(fv: FieldValueView) -> bool
    decreases fv,
{
    match fv {
        FieldValueView::Number(n) => n.finite(),
        FieldValueView::Array(items) => forall|i: int|
            0 <= i < items.len() ==> all_finite(#[trigger] items[i]),
        _ => true,
    }
}

/// A field value with finite numbers survives the way to JSON and back.
pub proof fn json_round_trip(fv: FieldValueView)
    requires
        all_finite(fv),
    ensures
        field_value_of(json_of(fv)) == Some(fv),
    decreases fv,
{
    match fv {
        FieldValueView::Array(items) => {
            reveal_with_fuel(json_of, 2);
            let forms = json_of(fv)->Array_0;
            assert forall|i: int| 0 <= i < items.len() implies field_value_of(
                #[trigger] forms[i],
            ) == Some(items[i]) by {
                json_round_trip(items[i]);
            }
            lemma_all_kept(forms, items);
        },
        _ => {},
    }
}

proof fn lemma_all_kept(forms: Seq<JsonView>, items: Seq<FieldValueView>)
    requires
        forms.len() == items.len(),
        forall|i: int| 0 <= i < items.len() ==> field_value_of(#[trigger] forms[i]) == Some(items[i]),
    ensures
        field_values_of(forms) == items,
    decreases forms.len(),
{
    if forms.len() > 0 {
        let n = forms.len() - 1;
        assert(field_value_of(forms[n]) == Some(items[n]));
        lemma_all_kept(forms.subrange(0, n as int), items.subrange(0, n as int));
        assert(items.subrange(0, n as int).push(items[n as int]) =~= items);
    } else {
        assert(field_values_of(forms) =~= items);
    }
}

/// Naming a field twice keeps the later value, whatever stood before.
pub proof fn later_member_counts(
    base: Map<Seq<char>, FieldValueView>,
    members: Seq<(String, Json)>,
    last: (String, Json),
)
    requires
        field_value_of(last.1@) is Some,
    ensures
        with_members(base, members.push(last))[last.0@] == field_value_of(last.1@)->0,
{
    assert(members.push(last).drop_last() =~= members);
}

/// A number that stands at `place` in the order of numbers lies between two bounds, each of
/// which belongs to the range and may be missing.
pub open spec fn lies_between(place: int, gte: Option<Number>, lte: Option<Number>) -> bool {
    &&& gte matches Some(low) ==> number_place(low) <= place
    &&& lte matches Some(high) ==> place <= number_place(high)
}

/// A `range` query means the range of its first field, with the client's bounds: each of
/// them counts by itself, so that a number lies in the range exactly where it lies between
/// those bounds that the client gave.
pub proof fn ranges_keep_both_bounds(entries: Vec<(String, RangeFieldQuery)>, place: int)
    requires
        entries@.len() > 0,
    ensures
        QueryDsl::Range(entries).meaning() matches QueryView::Range { field, gte, lte } && {
            let client = entries@[0].1;
            &&& field == entries@[0].0@
            &&& gte == client.gte
            &&& lte == client.lte
            &&& lies_between(place, gte, lte) <==> {
                &&& client.gte is Some ==> number_place(client.gte->0) <= place
                &&& client.lte is Some ==> place <= number_place(client.lte->0)
            }
        },
{
}

/// A `term` query means the exact value in its first field, and a `match` query the words in
/// its first field, all of them or any as the client's word says.
pub proof fn terms_and_words_are_kept(
    terms: Vec<(String, String)>,
    matches: Vec<(String, MatchFieldQuery)>,
)
    requires
        terms@.len() > 0,
        matches@.len() > 0,
    ensures
        QueryDsl::Term(terms).meaning() == (QueryView::Term {
            field: terms@[0].0@,
            value: terms@[0].1@,
        }),
        QueryDsl::Match(matches).meaning() matches QueryView::FullText { field, query, operator }
            && field == matches@[0].0@ && query == matches@[0].1.query@ && operator
            == operator_of(matches@[0].1.operator@),
{
}

/// A query without a field asks for nothing: for no words of the whole text, for an empty
/// term, or for a range without bounds.
pub proof fn queries_without_a_field_are_empty(
    terms: Vec<(String, String)>,
    matches: Vec<(String, MatchFieldQuery)>,
    ranges: Vec<(String, RangeFieldQuery)>,
)
    requires
        terms@.len() == 0,
        matches@.len() == 0,
        ranges@.len() == 0,
    ensures
        QueryDsl::Term(terms).meaning() matches QueryView::Term { field, value } && field.len()
            == 0 && value.len() == 0,
        QueryDsl::Match(matches).meaning() matches QueryView::FullText { field, query, operator }
            && field == "_body"@ && query.len() == 0 && operator == Operator::Or,
        QueryDsl::Range(ranges).meaning() matches QueryView::Range { field, gte, lte }
            && field.len() == 0 && gte is None && lte is None,
{
}

/// A `bool` query means the combination of what its clauses mean, each in its own list and
/// at its own place.
pub proof fn clauses_keep_their_lists(b: BoolQueryDsl, i: int)
    ensures
        QueryDsl::Bool(b).meaning() matches QueryView::Bool { must, should, must_not } && {
            &&& must.len() == b.must@.len()
            &&& should.len() == b.should@.len()
            &&& must_not.len() == b.must_not@.len()
            &&& 0 <= i < b.must@.len() ==> must[i] == b.must@[i].meaning()
            &&& 0 <= i < b.should@.len() ==> should[i] == b.should@[i].meaning()
            &&& 0 <= i < b.must_not@.len() ==> must_not[i] == b.must_not@[i].meaning()
        },
{
    lemma_bool_meaning(b);
}

/// The word "and" asks for all words, in whatever letters it is written; every other word
/// asks for any.
pub proof fn and_asks_for_all(word: Seq<char>, a: char, n: char, d: char)
    ensures
        word.len() != 3 ==> operator_of(word) == Operator::Or,
        operator_of(seq![a, n, d]) == Operator::And <==> (seq!['a', 'A'].contains(a)
            && seq!['n', 'N'].contains(n) && seq!['d', 'D'].contains(d)),
{
    let (x, y, z) = (seq!['a', 'A'], seq!['n', 'N'], seq!['d', 'D']);
    assert(x[0] == 'a' && x[1] == 'A' && y[0] == 'n' && y[1] == 'N' && z[0] == 'd' && z[1]
        == 'D');
    assert(x.contains(a) <==> a == 'a' || a == 'A');
    assert(y.contains(n) <==> n == 'n' || n == 'N');
    assert(z.contains(d) <==> d == 'd' || d == 'D');
}

/// Only the word "asc" asks for an ascending order.
pub proof fn only_asc_ascends(word: Seq<char>)
    ensures
        sort_order_of(word) == SortOrder::Asc <==> word == "asc"@,
        sort_order_of(word) == SortOrder::Desc <==> word != "asc"@,
{
}

/// A hit shows the document that was found: under its identifier, with its score, and each
/// of its fields under its name, in their order.
pub proof fn hits_show_documents(hit: Hit, scored: ScoredDocument, i: int)
    requires
        hit_shows(hit, scored),
    ensures
        hit.id@ == scored.document.id@,
        hit.score == scored.score,
        hit.highlight is None,
        hit.source@ matches JsonView::Object(members) && {
            let fields = scored.document.fields.entries();
            &&& members.len() == fields.len()
            &&& 0 <= i < fields.len() ==> members[i].0 == fields[i].0@ && members[i].1 == json_of(
                fields[i].1@,
            )
        },
{
    if 0 <= i < scored.document.fields.entries().len() {
        assert(hit.source@->Object_0[i].0 == scored.document.fields.entries()[i].0@);
    }
}

/// The JSON form of a value is of its kind: a text for a text, a number for a finite number,
/// a truth value for a truth value, and for an array the forms of its items at their places.
/// A number that is not finite becomes null.
pub proof fn values_have_their_json_form(t: Seq<char>, n: Number, b: bool, items: Seq<FieldValueView>, i: int)
    ensures
        json_of(FieldValueView::Text(t)) == JsonView::Text(t),
        n.finite() ==> json_of(FieldValueView::Number(n)) == JsonView::Number(n),
        !n.finite() ==> json_of(FieldValueView::Number(n)) == JsonView::Null,
        json_of(FieldValueView::Boolean(b)) == JsonView::Bool(b),
        json_of(FieldValueView::Array(items)) matches JsonView::Array(forms) && forms.len()
            == items.len() && (0 <= i < items.len() ==> forms[i] == json_of(items[i])),
{
    reveal_with_fuel(json_of, 2);
}

/// The value of a JSON value is of its kind; null and objects have none, and of an array
/// the values of those items count that have one, all of them and in their order.
pub proof fn json_has_its_value(
    t: Seq<char>,
    n: Number,
    b: bool,
    items: Seq<JsonView>,
    members: Seq<(Seq<char>, JsonView)>,
)
    ensures
        field_value_of(JsonView::Text(t)) == Some(FieldValueView::Text(t)),
        field_value_of(JsonView::Number(n)) == Some(FieldValueView::Number(n)),
        field_value_of(JsonView::Bool(b)) == Some(FieldValueView::Boolean(b)),
        field_value_of(JsonView::Null) is None,
        field_value_of(JsonView::Object(members)) is None,
        field_value_of(JsonView::Array(items)) == Some(
            FieldValueView::Array(
                items.filter(|v: JsonView| field_value_of(v) is Some).map_values(
                    |v: JsonView| field_value_of(v)->0,
                ),
            ),
        ),
{
    lemma_values_of(items);
}

proof fn lemma_values_of(items: Seq<JsonView>)
    ensures
        field_values_of(items) == items.filter(
            |v: JsonView| field_value_of(v) is Some,
        ).map_values(|v: JsonView| field_value_of(v)->0),
    decreases items.len(),
{
    let has = |v: JsonView| field_value_of(v) is Some;
    let value = |v: JsonView| field_value_of(v)->0;
    reveal(Seq::filter);
    if items.len() > 0 {
        let front = items.subrange(0, items.len() - 1);
        assert(front =~= items.drop_last());
        lemma_values_of(front);
        let kept = front.filter(has);
        let last = items[items.len() - 1];
        assert(last == items.last());
        if has(last) {
            assert(kept.push(last).map_values(value) =~= kept.map_values(value).push(value(last)));
        }
    } else {
        assert(items.filter(has).map_values(value) =~= Seq::<FieldValueView>::empty());
    }
}

/// A document that is made of members has a field exactly where a member with a value has
/// its name, and its value is that of the last of them.
pub proof fn the_last_member_counts(
    id: Seq<char>,
    members: Seq<(String, Json)>,
    name: Seq<char>,
    k: int,
)
    requires
        -1 <= k < members.len(),
        k >= 0 ==> members[k].0@ == name && field_value_of(members[k].1@) is Some,
        forall|i: int|
            k < i < members.len() ==> (#[trigger] members[i]).0@ != name || field_value_of(
                members[i].1@,
            ) is None,
    ensures
        document_of(id, members).id == id,
        document_of(id, members).fields.contains_key(name) <==> k >= 0,
        k >= 0 ==> document_of(id, members).fields[name] == field_value_of(members[k].1@)->0,
    decreases members.len(),
{
    if members.len() > 0 && k < members.len() - 1 {
        let front = members.drop_last();
        assert(members[members.len() - 1] == members.last());
        assert forall|i: int| k < i < front.len() implies (#[trigger] front[i]).0@ != name
            || field_value_of(front[i].1@) is None by {
            assert(front[i] == members[i]);
        }
        the_last_member_counts(id, front, name, k);
    }
}

/// Every kind of error has its status and its name.
pub proof fn errors_have_their_status(reason: Seq<char>)
    ensures
        ErrorView::not_found(reason) == (ErrorView {
            status: 404,
            error_type: "not_found"@,
            reason,
        }),
        ErrorView::bad_request(reason) == (ErrorView {
            status: 400,
            error_type: "invalid_input"@,
            reason,
        }),
        ErrorView::internal(reason) == (ErrorView {
            status: 500,
            error_type: "internal_error"@,
            reason,
        }),
        ErrorView::service_unavailable(reason) == (ErrorView {
            status: 503,
            error_type: "service_unavailable"@,
            reason,
        }),
        ErrorView::unauthorized(reason) == (ErrorView {
            status: 401,
            error_type: "unauthorized"@,
            reason,
        }),
        ErrorView::redirect(reason) == (ErrorView { status: 307, error_type: "redirect"@, reason }),
{
}

/// A generated identifier has five groups of hexadecimal digits, of eight, four, four, four
/// and twelve, with hyphens between them.
pub proof fn generated_identifiers_have_their_form(s: Seq<char>, i: int)
    requires
        hyphenated(s),
        0 <= i < 36,
    ensures
        s.len() == 36,
        s[8] == '-' && s[13] == '-' && s[18] == '-' && s[23] == '-',
        i != 8 && i != 13 && i != 18 && i != 23 ==> 48 <= s[i] as int <= 57 || 97 <= s[i] as int
            <= 102,
{
    assert(is_hex(s[i]) || s[i] == '-');
    assert(s[8] == '-' && s[13] == '-' && s[18] == '-' && s[23] == '-');
}

/// A text of five groups of hexadecimal digits with hyphens between them may be a generated
/// identifier.
pub proof fn identifiers_of_this_form_may_be_generated(s: Seq<char>)
    requires
        s.len() == 36,
        forall|i: int|
            0 <= i < 36 ==> if i == 8 || i == 13 || i == 18 || i == 23 {
                #[trigger] s[i] == '-'
            } else {
                (48 <= s[i] as int <= 57) || (97 <= s[i] as int <= 102)
            },
    ensures
        hyphenated(s),
{
}

} // verus!
