//! Queries built clause by clause.

use vstd::prelude::*;

use crate::index::queries::{
    fuzzy_text, has_wildcards, leading_marks_say_how_many, marked_fuzzy, pattern_regex, plan_of, PlanView,
};
use crate::json::Number;
use crate::model::query::{
    copy_queries, query_views, BoolQuery, FullTextQuery, Operator, Query, QueryView, RangeQuery, Score,
    TermQuery,
};
use crate::text;

verus! {

/// Collects the clauses of a query.
#[derive(Debug)]
pub struct QueryBuilder {
    pub must: Vec<Query>,
    pub should: Vec<Query>,
    pub must_not: Vec<Query>,
    /// How much the results count beside those of other queries.
    pub boost_factor: Option<Score>,
}

/// The text of a query whose words may have typing errors: a tilde, their number, a
/// colon, and the words.
pub open spec fn fuzzy_mark(distance: u8, value: Seq<char>) -> Seq<char> {
    "~"@ + text::decimal(distance as nat) + ":"@ + value
}

fn full_text(field: &str, query: &str, operator: Operator) -> (q: Query)
    ensures
        q@ == (QueryView::FullText { field: field@, query: query@, operator }),
{
    Query::FullText(FullTextQuery { field: field.to_owned(), query: query.to_owned(), operator })
}

fn term(field: &str, value: &str) -> (q: Query)
    ensures
        q@ == (QueryView::Term { field: field@, value: value@ }),
{
    Query::Term(TermQuery { field: field.to_owned(), value: value.to_owned() })
}

fn range(field: &str, gte: Option<Number>, lte: Option<Number>) -> (q: Query)
    ensures
        q@ == (QueryView::Range { field: field@, gte, lte }),
{
    Query::Range(RangeQuery { field: field.to_owned(), gte, lte })
}

/// `after` is `before` with one more clause, of value `clause`, at the end.
pub open spec fn one_more(before: Seq<Query>, after: Seq<Query>, clause: QueryView) -> bool {
    &&& after.len() == before.len() + 1
    &&& after.drop_last() == before
    &&& after.last()@ == clause
}

impl Clone for QueryBuilder {
    fn clone(&self) -> (b: Self)
        ensures
            query_views(b.must@) == query_views(self.must@),
            query_views(b.should@) == query_views(self.should@),
            query_views(b.must_not@) == query_views(self.must_not@),
            b.boost_factor == self.boost_factor,
    {
        QueryBuilder {
            must: copy_queries(&self.must),
            should: copy_queries(&self.should),
            must_not: copy_queries(&self.must_not),
            boost_factor: self.boost_factor,
        }
    }
}

impl QueryBuilder {
    /// `self` is `before` with one more clause that has to match.
    pub open spec fn with_must(&self, before: QueryBuilder, clause: QueryView) -> bool {
        &&& one_more(before.must@, self.must@, clause)
        &&& self.should == before.should
        &&& self.must_not == before.must_not
        &&& self.boost_factor == before.boost_factor
    }

    /// `self` is `before` with one more clause that adds to the relevance.
    pub open spec fn with_should(&self, before: QueryBuilder, clause: QueryView) -> bool {
        &&& one_more(before.should@, self.should@, clause)
        &&& self.must == before.must
        &&& self.must_not == before.must_not
        &&& self.boost_factor == before.boost_factor
    }

    /// `self` is `before` with one more clause that must not match.
    pub open spec fn with_must_not(&self, before: QueryBuilder, clause: QueryView) -> bool {
        &&& one_more(before.must_not@, self.must_not@, clause)
        &&& self.must == before.must
        &&& self.should == before.should
        &&& self.boost_factor == before.boost_factor
    }

    /// No clauses.
    pub fn new() -> (b: Self)
        ensures
            b.must@.len() == 0,
            b.should@.len() == 0,
            b.must_not@.len() == 0,
            b.boost_factor is None,
    {
        QueryBuilder {
            must: Vec::new(),
            should: Vec::new(),
            must_not: Vec::new(),
            boost_factor: None,
        }
    }

    /// Add a clause that has to match.
    pub fn must(self, query: Query) -> (b: Self)
        ensures
            b.with_must(self, query@),
            b.must@ == self.must@.push(query),
    {
        let mut b = self;
        b.must.push(query);
        assert(b.must@.drop_last() =~= self.must@);
        b
    }

    /// Add a clause that adds to the relevance.
    pub fn should(self, query: Query) -> (b: Self)
        ensures
            b.with_should(self, query@),
            b.should@ == self.should@.push(query),
    {
        let mut b = self;
        b.should.push(query);
        assert(b.should@.drop_last() =~= self.should@);
        b
    }

    /// Add a clause that must not match.
    pub fn must_not(self, query: Query) -> (b: Self)
        ensures
            b.with_must_not(self, query@),
            b.must_not@ == self.must_not@.push(query),
    {
        let mut b = self;
        b.must_not.push(query);
        assert(b.must_not@.drop_last() =~= self.must_not@);
        b
    }

    /// Any of the words has to occur in the field.
    pub fn must_match(self, field: &str, text: &str) -> (b: Self)
        ensures
            b.with_must(
                self,
                (QueryView::FullText { field: field@, query: text@, operator: Operator::Or }),
            ),
    {
        self.must(full_text(field, text, Operator::Or))
    }

    /// All of the words have to occur in the field.
    pub fn must_match_all(self, field: &str, text: &str) -> (b: Self)
        ensures
            b.with_must(
                self,
                (QueryView::FullText { field: field@, query: text@, operator: Operator::And }),
            ),
    {
        self.must(full_text(field, text, Operator::And))
    }

    /// Any of the words in the field adds to the relevance.
    pub fn should_match(self, field: &str, text: &str) -> (b: Self)
        ensures
            b.with_should(
                self,
                (QueryView::FullText { field: field@, query: text@, operator: Operator::Or }),
            ),
    {
        self.should(full_text(field, text, Operator::Or))
    }

    /// None of the words may occur in the field.
    pub fn must_not_match(self, field: &str, text: &str) -> (b: Self)
        ensures
            b.with_must_not(
                self,
                (QueryView::FullText { field: field@, query: text@, operator: Operator::Or }),
            ),
    {
        self.must_not(full_text(field, text, Operator::Or))
    }

    /// The field has to hold exactly this term.
    pub fn must_term(self, field: &str, value: &str) -> (b: Self)
        ensures
            b.with_must(self, (QueryView::Term { field: field@, value: value@ })),
    {
        self.must(term(field, value))
    }

    /// That the field holds exactly this term adds to the relevance.
    pub fn should_term(self, field: &str, value: &str) -> (b: Self)
        ensures
            b.with_should(self, (QueryView::Term { field: field@, value: value@ })),
    {
        self.should(term(field, value))
    }

    /// The field must not hold this term.
    pub fn must_not_term(self, field: &str, value: &str) -> (b: Self)
        ensures
            b.with_must_not(self, (QueryView::Term { field: field@, value: value@ })),
    {
        self.must_not(term(field, value))
    }

    /// The number in the field has to lie between the bounds.
    pub fn must_range(self, field: &str, gte: Option<Number>, lte: Option<Number>) -> (b: Self)
        ensures
            b.with_must(self, (QueryView::Range { field: field@, gte, lte })),
    {
        self.must(range(field, gte, lte))
    }

    /// That the number in the field lies between the bounds adds to the relevance.
    pub fn should_range(self, field: &str, gte: Option<Number>, lte: Option<Number>) -> (b: Self)
        ensures
            b.with_should(self, (QueryView::Range { field: field@, gte, lte })),
    {
        self.should(range(field, gte, lte))
    }

    /// Set how much the results count.
    pub fn boost(self, factor: Score) -> (b: Self)
        ensures
            b == (QueryBuilder { boost_factor: Some(factor), ..self }),
    {
        QueryBuilder { boost_factor: Some(factor), ..self }
    }

    /// Any of the words has to occur in the field, with up to `distance` typing errors.
    pub fn fuzzy(self, field: &str, value: &str, distance: u8) -> (b: Self)
        ensures
            b.with_must(
                self,
                (QueryView::FullText {
                    field: field@,
                    query: fuzzy_mark(distance, value@),
                    operator: Operator::Or,
                }),
            ),
    {
        let digits = text::decimal_of(distance as u64);
        let mut marked = text::concat3("~", digits.as_str(), ":");
        marked.append(value);
        self.must(full_text(field, marked.as_str(), Operator::Or))
    }

    /// The words have to occur in the field one after the other.
    pub fn phrase(self, field: &str, phrase: &str) -> (b: Self)
        ensures
            b.with_must(
                self,
                (QueryView::FullText {
                    field: field@,
                    query: "\""@ + phrase@ + "\""@,
                    operator: Operator::And,
                }),
            ),
    {
        let quoted = text::concat3("\"", phrase, "\"");
        self.must(full_text(field, quoted.as_str(), Operator::And))
    }

    /// The field has to hold a term of this pattern, in which `*` stands for any characters
    /// and `?` for a single one.
    pub fn wildcard(self, field: &str, pattern: &str) -> (b: Self)
        ensures
            b.with_must(self, (QueryView::Term { field: field@, value: pattern@ })),
    {
        self.must(term(field, pattern))
    }

    /// The query of all clauses; a single clause that has to match is the query
    /// itself.
    pub fn build(self) -> (q: Query)
        ensures
            if self.must@.len() == 1 && self.should@.len() == 0 && self.must_not@.len() == 0 {
                q == self.must@[0]
            } else {
                q == Query::Bool(
                    BoolQuery { must: self.must, should: self.should, must_not: self.must_not },
                )
            },
    {
        if self.must.len() == 1 && self.should.len() == 0 && self.must_not.len() == 0 {
            let mut must = self.must;
            return must.remove(0);
        }
        Query::Bool(
            BoolQuery { must: self.must, should: self.should, must_not: self.must_not },
        )
    }
}

impl Default for QueryBuilder {
    fn default() -> (b: Self)
        ensures
            b.must@.len() == 0,
            b.should@.len() == 0,
            b.must_not@.len() == 0,
            b.boost_factor is None,
    {
        QueryBuilder::new()
    }
}

/// The index understands a query with typing errors as it was built: it searches for
/// the words, with up to that many errors.
pub proof fn fuzzy_query_is_understood(distance: u8, value: Seq<char>)
    requires
        1 <= distance <= 2,
    ensures
        fuzzy_text(fuzzy_mark(distance, value)) == (value, Some(distance)),
{
    let digits = text::decimal(distance as nat);
    let marked = fuzzy_mark(distance, value);
    reveal_strlit("~");
    reveal_strlit(":");
    text::lemma_decimal(distance as nat);
    assert(digits.len() == 1);
    assert(marked[0] == '~');
    assert(marked[1] == digits[0]);
    assert(marked[2] == ':');
    assert(text::is_digit(digits[0]));
    reveal_with_fuel(text::first_index, 4);
    assert(text::first_index(marked, ':', 0) == 2);
    assert(marked.subrange(1, 2) =~= digits);
    assert(marked.skip(3) =~= value);
    text::decimal_round_trip(distance as nat, 255);
    assert(marked_fuzzy(marked) == Some((distance as nat, value)));
}

/// The index understands a query with wildcards as it was built: it searches for every
/// term of the pattern.  Identifiers alone are looked up as they are.
pub proof fn wildcard_query_is_understood(
    map: Map<Seq<char>, u32>,
    field: Seq<char>,
    pattern: Seq<char>,
)
    requires
        map.contains_key(field),
        field != "_id"@,
        has_wildcards(pattern),
    ensures
        plan_of((QueryView::Term { field, value: pattern }), map, true) == Ok::<
            PlanView,
            Seq<char>,
        >(PlanView::Pattern { field: map[field], regex: pattern_regex(pattern) }),
{
}

// ---------------------------------------------------------------------------
// Laws
// ---------------------------------------------------------------------------

/// One more clause stands behind those that were there, and nothing else changes.
pub proof fn clauses_are_added_at_the_end(
    before: QueryBuilder,
    after: QueryBuilder,
    clause: QueryView,
    i: int,
)
    ensures
        after.with_must(before, clause) ==> {
            &&& after.must@.len() == before.must@.len() + 1
            &&& after.must@[before.must@.len() as int]@ == clause
            &&& 0 <= i < before.must@.len() ==> after.must@[i] == before.must@[i]
            &&& after.should == before.should
            &&& after.must_not == before.must_not
            &&& after.boost_factor == before.boost_factor
        },
        after.with_should(before, clause) ==> {
            &&& after.should@.len() == before.should@.len() + 1
            &&& after.should@[before.should@.len() as int]@ == clause
            &&& 0 <= i < before.should@.len() ==> after.should@[i] == before.should@[i]
            &&& after.must == before.must
            &&& after.must_not == before.must_not
            &&& after.boost_factor == before.boost_factor
        },
        after.with_must_not(before, clause) ==> {
            &&& after.must_not@.len() == before.must_not@.len() + 1
            &&& after.must_not@[before.must_not@.len() as int]@ == clause
            &&& 0 <= i < before.must_not@.len() ==> after.must_not@[i] == before.must_not@[i]
            &&& after.must == before.must
            &&& after.should == before.should
            &&& after.boost_factor == before.boost_factor
        },
{
    if after.with_must(before, clause) && 0 <= i < before.must@.len() {
        assert(after.must@.drop_last()[i] == before.must@[i]);
    }
    if after.with_should(before, clause) && 0 <= i < before.should@.len() {
        assert(after.should@.drop_last()[i] == before.should@[i]);
    }
    if after.with_must_not(before, clause) && 0 <= i < before.must_not@.len() {
        assert(after.must_not@.drop_last()[i] == before.must_not@[i]);
    }
}

/// A number of typing errors that cannot be allowed is not part of the words either: the
/// index looks for the words as they are.
pub proof fn impossible_distances_are_ignored(distance: u8, value: Seq<char>)
    requires
        distance == 0 || distance > 2,
    ensures
        fuzzy_text(fuzzy_mark(distance, value)) == (value, None::<u8>),
{
    reveal_strlit("~");
    reveal_strlit(":");
    assert("~"@ =~= seq!['~']);
    assert(":"@ =~= seq![':']);
    leading_marks_say_how_many(distance as nat, value);
}

} // verus!
