//! Queries and search results.

use vstd::prelude::*;

use crate::json::Number;
use crate::model::document::Document;
use crate::table::Table;

verus! {

/// How the words of a full-text query combine.
#[derive(Clone, Copy, Debug, PartialEq, Eq, Structural)]
pub enum Operator {
    And,
    Or,
}

/// Full-text search in one field.
#[derive(Debug, PartialEq)]
pub struct FullTextQuery {
    pub field: String,
    pub query: String,
    pub operator: Operator,
}

/// Exact match of one value.
#[derive(Debug, PartialEq)]
pub struct TermQuery {
    pub field: String,
    pub value: String,
}

/// Numeric range; a missing bound is open.
#[derive(Debug, PartialEq)]
pub struct RangeQuery {
    pub field: String,
    pub gte: Option<Number>,
    pub lte: Option<Number>,
}

/// Boolean combination.
#[derive(Debug, PartialEq)]
pub struct BoolQuery {
    pub must: Vec<Query>,
    pub should: Vec<Query>,
    pub must_not: Vec<Query>,
}

/// A search query.
#[derive(Debug, PartialEq)]
pub enum Query {
    FullText(FullTextQuery),
    Term(TermQuery),
    Range(RangeQuery),
    Bool(BoolQuery),
}

/// The mathematical value of a [`Query`].
#[verifier::ext_equal]
pub enum QueryView {
    FullText { field: Seq<char>, query: Seq<char>, operator: Operator },
    Term { field: Seq<char>, value: Seq<char> },
    Range { field: Seq<char>, gte: Option<Number>, lte: Option<Number> },
    Bool { must: Seq<QueryView>, should: Seq<QueryView>, must_not: Seq<QueryView> },
}

impl View for Query {
    type V = QueryView;

    open spec fn view(&self) -> QueryView
        decreases self,
    {
        match self {
            Query::FullText(q) => QueryView::FullText {
                field: q.field@,
                query: q.query@,
                operator: q.operator,
            },
            Query::Term(q) => QueryView::Term { field: q.field@, value: q.value@ },
            Query::Range(q) => QueryView::Range { field: q.field@, gte: q.gte, lte: q.lte },
            Query::Bool(q) => QueryView::Bool {
                must: Seq::new(
                    q.must@.len(),
                    |i: int|
                        if 0 <= i < q.must@.len() {
                            q.must@[i].view()
                        } else {
                            arbitrary()
                        },
                ),
                should: Seq::new(
                    q.should@.len(),
                    |i: int|
                        if 0 <= i < q.should@.len() {
                            q.should@[i].view()
                        } else {
                            arbitrary()
                        },
                ),
                must_not: Seq::new(
                    q.must_not@.len(),
                    |i: int|
                        if 0 <= i < q.must_not@.len() {
                            q.must_not@[i].view()
                        } else {
                            arbitrary()
                        },
                ),
            },
        }
    }
}

/// The values of a list of queries.
pub open spec fn query_views(qs: Seq<Query>) -> Seq<QueryView> {
    Seq::new(qs.len(), |i: int| qs[i]@)
}

/// A Boolean query's value is made of its clauses' values.
pub proof fn lemma_bool_view(b: BoolQuery)
    ensures
        Query::Bool(b)@ == (QueryView::Bool {
            must: query_views(b.must@),
            should: query_views(b.should@),
            must_not: query_views(b.must_not@),
        }),
{
    reveal_with_fuel(<Query as View>::view, 2);
    let v = Query::Bool(b)@;
    assert(v is Bool);
    assert(v->must =~= query_views(b.must@));
    assert(v->should =~= query_views(b.should@));
    assert(v->must_not =~= query_views(b.must_not@));
}

/// A copy of a query.
pub fn copy_query(q: &Query) -> (r: Query)
    ensures
        r@ == q@,
    decreases q,
{
    match q {
        Query::FullText(q) => Query::FullText(
            FullTextQuery {
                field: q.field.clone(),
                query: q.query.clone(),
                operator: q.operator,
            },
        ),
        Query::Term(q) => Query::Term(
            TermQuery { field: q.field.clone(), value: q.value.clone() },
        ),
        Query::Range(q) => Query::Range(
            RangeQuery { field: q.field.clone(), gte: q.gte, lte: q.lte },
        ),
        Query::Bool(q) => {
            let copy = BoolQuery {
                must: copy_queries(&q.must),
                should: copy_queries(&q.should),
                must_not: copy_queries(&q.must_not),
            };
            proof {
                lemma_bool_view(*q);
                lemma_bool_view(copy);
            }
            Query::Bool(copy)
        },
    }
}

/// A copy of a list of queries.
pub fn copy_queries(qs: &Vec<Query>) -> (r: Vec<Query>)
    ensures
        query_views(r@) == query_views(qs@),
    decreases qs,
{
    let mut out: Vec<Query> = Vec::new();
    let mut i: usize = 0;
    while i < qs.len()
        invariant
            i <= qs@.len(),
            out@.len() == i,
            forall|j: int| 0 <= j < i ==> (#[trigger] out@[j])@ == qs@[j]@,
        decreases qs@.len() - i,
    {
        out.push(copy_query(&qs[i]));
        i = i + 1;
    }
    assert(query_views(out@) =~= query_views(qs@));
    out
}

impl Clone for Query {
    fn clone(&self) -> (r: Self)
        ensures
            r@ == self@,
    {
        copy_query(self)
    }
}

/// A relevance score: a single-precision number, held by its IEEE 754 bit
/// pattern.
#[derive(Clone, Copy, Debug, PartialEq, Eq, Structural)]
pub struct Score {
    /// The bit pattern: one sign bit, eight exponent bits, twenty-three
    /// fraction bits.
    pub bits: u32,
}

impl Score {
    /// The bit pattern denotes no number.
    pub open spec fn nan(self) -> bool {
        (self.bits as int / 0x80_0000) % 0x100 == 0xFF && self.bits as int % 0x80_0000 != 0
    }

    /// An integer that orders the scores as the numbers that they denote; both
    /// zeros have rank zero.
    pub open spec fn rank(self) -> int {
        if self.bits >= 0x8000_0000 {
            0x8000_0000 - self.bits
        } else {
            self.bits as int
        }
    }

    /// The score denotes a greater number than `other` does.
    pub open spec fn above(self, other: Score) -> bool {
        !self.nan() && !other.nan() && self.rank() > other.rank()
    }

    /// Whether the bit pattern denotes no number.
    pub fn is_nan(&self) -> (r: bool)
        ensures
            r == self.nan(),
    {
        (self.bits / 0x80_0000) % 0x100 == 0xFF && self.bits % 0x80_0000 != 0
    }

    /// The score's rank.
    pub fn rank_of(&self) -> (r: i64)
        ensures
            r == self.rank(),
    {
        if self.bits >= 0x8000_0000 {
            0x8000_0000i64 - self.bits as i64
        } else {
            self.bits as i64
        }
    }

    /// Whether the score denotes a greater number than `other` does.
    pub fn is_above(&self, other: &Score) -> (r: bool)
        ensures
            r == self.above(*other),
    {
        !self.is_nan() && !other.is_nan() && self.rank_of() > other.rank_of()
    }
}

/// The order of a sort criterion.
#[derive(Clone, Copy, Debug, PartialEq, Eq, Structural)]
pub enum SortOrder {
    Asc,
    Desc,
}

/// A sort criterion: a field, or `_score`.
#[derive(Clone, Debug)]
pub struct SortClause {
    pub field: String,
    pub order: SortOrder,
}

/// What a document is sorted by under a criterion.
#[derive(Clone, Debug, PartialEq)]
pub enum SortValue {
    /// The document has no such field, or a list in it.
    Missing,
    Flag(bool),
    Score(Score),
    Number(Number),
    Text(String),
}

/// How a search is to arrange what it finds.
#[derive(Clone, Debug)]
pub struct SearchOptions {
    /// How many results are left out at the front.
    pub from: usize,
    /// The greatest number of results.
    pub size: usize,
    /// The criteria, the first of which counts most.
    pub sort: Vec<SortClause>,
    /// The sort values of the last result that the client has.
    pub search_after: Option<Vec<SortValue>>,
    /// The field by which results are collapsed.
    pub collapse: Option<String>,
}

/// The results of one value, or of one range of values.
#[derive(Clone, Debug, PartialEq)]
pub struct Bucket {
    pub key: String,
    pub doc_count: u64,
}

/// What an aggregation gives.
#[derive(Clone, Debug, PartialEq)]
pub enum AggregationResult {
    Buckets { buckets: Vec<Bucket> },
    Metric { value: Option<Number> },
}

/// The results of aggregations, by name.
pub type Aggregations = Table<String, AggregationResult>;

/// A document with its score.
pub struct ScoredDocument {
    pub document: Document,
    pub score: Score,
    /// What it was sorted by, one value for each criterion.
    pub sort: Vec<SortValue>,
}

/// The result of a search.
pub struct SearchResult {
    pub documents: Vec<ScoredDocument>,
    /// The number of documents that matched.
    pub total: u64,
    pub took_ms: u64,
    pub aggregations: Aggregations,
}

// ---------------------------------------------------------------------------
// Laws
// ---------------------------------------------------------------------------

/// A query shows what it asks for: its field, its words and how they combine, its term, or
/// its bounds.
pub proof fn queries_show_what_they_ask_for(
    words: FullTextQuery,
    term: TermQuery,
    range: RangeQuery,
    list: Seq<Query>,
    i: int,
)
    ensures
        Query::FullText(words)@ == (QueryView::FullText {
            field: words.field@,
            query: words.query@,
            operator: words.operator,
        }),
        Query::Term(term)@ == (QueryView::Term { field: term.field@, value: term.value@ }),
        Query::Range(range)@ == (QueryView::Range {
            field: range.field@,
            gte: range.gte,
            lte: range.lte,
        }),
        query_views(list).len() == list.len(),
        0 <= i < list.len() ==> query_views(list)[i] == list[i]@,
{
}

/// Scores are ordered as the numbers that they denote: by their bits where they are not
/// negative, the other way round where they are, with both zeros in one place; and what
/// denotes no number stands above nothing and below nothing.
pub proof fn scores_are_ordered_as_numbers(a: Score, b: Score)
    ensures
        ({
            let x = a.bits as int % 0x8000_0000;
            let y = b.bits as int % 0x8000_0000;
            let minus_a = a.bits >= 0x8000_0000;
            let minus_b = b.bits >= 0x8000_0000;
            &&& a.nan() <==> x > 0x7F80_0000
            &&& a.nan() || b.nan() ==> !a.above(b)
            &&& !a.nan() && !b.nan() && !minus_a && !minus_b ==> (a.above(b) <==> x > y)
            &&& !a.nan() && !b.nan() && minus_a && minus_b ==> (a.above(b) <==> x < y)
            &&& !a.nan() && !b.nan() && !minus_a && minus_b ==> (a.above(b) <==> x > 0 || y > 0)
            &&& minus_a && !minus_b ==> !a.above(b)
        }),
{
    let n = a.bits as int;
    assert(n == n / 0x80_0000 * 0x80_0000 + n % 0x80_0000);
    let high = n / 0x80_0000;
    if n < 0x8000_0000 {
        assert(n % 0x8000_0000 == n);
        assert(high < 0x100);
        assert(high % 0x100 == high);
    } else {
        assert(n % 0x8000_0000 == n - 0x8000_0000);
        assert(0x100 <= high < 0x200);
        assert(high % 0x100 == high - 0x100);
    }
    let m = b.bits as int;
    if m < 0x8000_0000 {
        assert(m % 0x8000_0000 == m);
    } else {
        assert(m % 0x8000_0000 == m - 0x8000_0000);
    }
}

} // verus!
