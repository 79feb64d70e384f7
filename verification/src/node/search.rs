//! Searching a collection or an alias.

use vstd::prelude::*;

use crate::model::arrangement::{
    arrange, arranged, arranging_sorts, collapse, collapse_field, collapsed, copy_values,
    cursor_keys, keys_of, orders, stands_before,
};
use crate::model::consistency::ConsistencyLevel;
use crate::model::error::DbError;
use crate::model::query::{
    AggregationResult, Aggregations, FullTextQuery, Operator, Query, QueryView, ScoredDocument,
    SearchOptions, SearchResult, SortClause,
};
use crate::model::ranking::{
    all_numbers, page, paginate, ranked, ranking_is_a_descending_permutation, sort_by_score,
};
use crate::node::dto::{
    hit_shows, ErrorResponse, ErrorView, SearchResponse, SimpleSearchParams,
};
use crate::node::errors::{answer_to, db_error_to_response};
use crate::node::state::{collection_not_found, no_collection, Catalog};
use crate::table::Table;
use crate::text;

verus! {

/// The collections that `name` stands for: itself where it is a collection, else
/// those of the alias.
pub fn resolve_search_targets(registry: &Catalog, name: &str) -> (r: Result<
    Vec<String>,
    ErrorResponse,
>)
    ensures
        match r {
            Ok(targets) => if registry.has(name@) {
                text::texts(targets@) == seq![name@]
            } else {
                &&& registry.aliases@.contains_key(name@)
                &&& targets@ == registry.aliases@[name@]@
                &&& targets@.len() > 0
            },
            Err(e) => {
                &&& !registry.has(name@)
                &&& if registry.aliases@.contains_key(name@) {
                    &&& registry.aliases@[name@]@.len() == 0
                    &&& e@ == ErrorView::bad_request(
                        "alias '"@ + name@ + "' has no backing collections"@,
                    )
                } else {
                    e@ == no_collection(name@)
                }
            },
        },
{
    if registry.has_collection(name) {
        let mut targets: Vec<String> = Vec::new();
        targets.push(name.to_owned());
        assert(text::texts(targets@) =~= seq![name@]);
        return Ok(targets);
    }
    let key = name.to_owned();
    match registry.aliases.get(&key) {
        Some(targets) => {
            if targets.len() == 0 {
                let reason = text::concat3("alias '", name, "' has no backing collections");
                return Err(ErrorResponse::bad_request(reason.as_str()));
            }
            Ok(text::copy_strings(targets))
        },
        None => Err(collection_not_found(name)),
    }
}

/// What one of several collections is asked for: every result that may stand on the
/// page of them all.
pub fn options_for_each(options: &SearchOptions) -> (each: SearchOptions)
    requires
        options.from + options.size <= usize::MAX,
    ensures
        each.from == 0,
        each.size == options.from + options.size,
        each.sort@.len() == options.sort@.len(),
        forall|i: int|
            0 <= i < each.sort@.len() ==> (#[trigger] each.sort@[i]).field@
                == options.sort@[i].field@ && each.sort@[i].order == options.sort@[i].order,
        cursor_keys(each.search_after) == cursor_keys(options.search_after),
        collapse_field(each.collapse) == collapse_field(options.collapse),
{
    let mut sort: Vec<SortClause> = Vec::new();
    let mut i: usize = 0;
    while i < options.sort.len()
        invariant
            i <= options.sort@.len(),
            sort@.len() == i,
            forall|k: int|
                0 <= k < i ==> (#[trigger] sort@[k]).field@ == options.sort@[k].field@
                    && sort@[k].order == options.sort@[k].order,
        decreases options.sort@.len() - i,
    {
        let clause = &options.sort[i];
        sort.push(SortClause { field: clause.field.clone(), order: clause.order });
        i = i + 1;
    }
    let search_after = match &options.search_after {
        Some(values) => Some(copy_values(values)),
        None => None,
    };
    let collapse = match &options.collapse {
        Some(f) => Some(f.clone()),
        None => None,
    };
    SearchOptions { from: 0, size: options.from + options.size, sort, search_after, collapse }
}

/// A search that goes out to several collections, one after the other.
pub struct FanOut {
    pub targets: Vec<String>,
    /// The number of collections that have answered.
    pub answered: usize,
    /// The documents found so far.
    pub documents: Vec<ScoredDocument>,
    /// The number of matches so far.
    pub total: u64,
    /// The aggregations so far.
    pub aggregations: Aggregations,
}

impl FanOut {
    /// A search that has not gone out yet.
    pub fn new(targets: Vec<String>) -> (f: FanOut)
        ensures
            f.targets == targets,
            f.answered == 0,
            f.documents@.len() == 0,
            f.total == 0,
            f.aggregations@ == Map::<Seq<char>, AggregationResult>::empty(),
    {
        FanOut {
            targets,
            answered: 0,
            documents: Vec::new(),
            total: 0,
            aggregations: Table::new(),
        }
    }

    /// The collection to search next, while there is one.
    pub fn next_target(&self) -> (r: Option<&String>)
        ensures
            match r {
                Some(t) => self.answered < self.targets@.len() && *t
                    == self.targets@[self.answered as int],
                None => self.answered >= self.targets@.len(),
            },
    {
        if self.answered < self.targets.len() {
            Some(&self.targets[self.answered])
        } else {
            None
        }
    }

    /// The collection at hand has answered.  Its documents join those found so far,
    /// and of aggregations with the same name its own counts; its error ends the
    /// search.
    pub fn on_result(&mut self, outcome: Result<SearchResult, DbError>) -> (r: Result<
        (),
        ErrorResponse,
    >)
        requires
            old(self).answered < old(self).targets@.len(),
            outcome is Ok ==> old(self).total + outcome->Ok_0.total <= u64::MAX,
        ensures
            final(self).targets == old(self).targets,
            match outcome {
                Ok(result) => {
                    &&& r is Ok
                    &&& final(self).answered == old(self).answered + 1
                    &&& final(self).documents@ == old(self).documents@ + result.documents@
                    &&& final(self).total == old(self).total + result.total
                    &&& final(self).aggregations@ == old(self).aggregations@.union_prefer_right(
                        result.aggregations@,
                    )
                },
                Err(e) => {
                    &&& r matches Err(resp)
                    &&& resp@ == answer_to(e)
                    &&& *final(self) == *old(self)
                },
            },
    {
        match outcome {
            Ok(result) => {
                assert(self.targets.len() == self.targets@.len());
                let mut more = result.documents;
                self.documents.append(&mut more);
                self.total = self.total + result.total;
                self.answered = self.answered + 1;
                self.aggregations.absorb(result.aggregations);
                Ok(())
            },
            Err(e) => Err(db_error_to_response(e).1),
        }
    }

    /// The documents in the order of the merged result: by their sort values, or,
    /// where nothing was said on sorting, by their scores.
    pub open spec fn merged(self, options: SearchOptions) -> Seq<ScoredDocument> {
        if options.sort@.len() > 0 {
            arranged(self.documents@, orders(options.sort@))
        } else {
            ranked(self.documents@)
        }
    }

    /// The merged result: all documents in order, collapsed, and of that the page.
    pub fn finish(self, options: &SearchOptions, took_ms: u64) -> (result: SearchResult)
        requires
            options.sort@.len() > 0 || all_numbers(self.documents@),
        ensures
            result.documents@ == page(
                collapsed(self.merged(*options), collapse_field(options.collapse)),
                options.from as int,
                options.size as int,
            ),
            result.total == self.total,
            result.took_ms == took_ms,
            result.aggregations == self.aggregations,
    {
        let mut documents = self.documents;
        if options.sort.len() > 0 {
            arrange(&mut documents, &options.sort);
        } else {
            sort_by_score(&mut documents);
        }
        collapse(&mut documents, &options.collapse);
        let documents = paginate(documents, options.from, options.size);
        SearchResult { documents, total: self.total, took_ms, aggregations: self.aggregations }
    }
}

/// The answer to a search: the hits, and the consistency level that was asked
/// for.
#[derive(Debug)]
pub struct SearchAnswer {
    pub response: SearchResponse,
    pub consistency: String,
}

/// Answer a search with its result.
pub fn answer_search(result: SearchResult, consistency: &Option<String>) -> (a: SearchAnswer)
    ensures
        a.response.hits.hits@.len() == result.documents@.len(),
        forall|i: int|
            0 <= i < result.documents@.len() ==> hit_shows(
                #[trigger] a.response.hits.hits@[i],
                result.documents@[i],
            ),
        a.response.hits.total.value == result.total,
        a.response.hits.total.relation@ == "eq"@,
        a.response.took == result.took_ms,
        !a.response.timed_out,
        a.consistency@ == ConsistencyLevel::asked_for(*consistency).spelled(),
{
    let level = ConsistencyLevel::from_param(consistency);
    SearchAnswer { response: SearchResponse::from_search_result(result), consistency: level.name() }
}

/// The query of a query-string search: its words, any of them, in the field that
/// holds all text.  It asks for the first `size` results.
pub fn simple_search(params: &SimpleSearchParams) -> (r: (Query, SearchOptions))
    ensures
        r.0@ == (QueryView::FullText {
            field: "_body"@,
            query: params.q@,
            operator: Operator::Or,
        }),
        r.1.from == 0,
        r.1.size == params.size,
        r.1.sort@.len() == 0,
        r.1.search_after is None,
        r.1.collapse is None,
{
    let query = Query::FullText(
        FullTextQuery {
            field: "_body".to_owned(),
            query: params.q.clone(),
            operator: Operator::Or,
        },
    );
    let options = SearchOptions {
        from: 0,
        size: params.size,
        sort: Vec::new(),
        search_after: None,
        collapse: None,
    };
    (query, options)
}

// ---------------------------------------------------------------------------
// Laws
// ---------------------------------------------------------------------------

/// The merged documents are those that were found, each as often; in the order of the sort
/// criteria where there are any, and else with the greatest scores first.
pub proof fn merged_documents_are_in_order(
    f: FanOut,
    options: SearchOptions,
    i: int,
    j: int,
)
    requires
        0 <= i < j < f.documents@.len(),
    ensures
        f.merged(options).len() == f.documents@.len(),
        f.merged(options).to_multiset() == f.documents@.to_multiset(),
        options.sort@.len() > 0 ==> !stands_before(
            keys_of(f.merged(options)[j]),
            keys_of(f.merged(options)[i]),
            orders(options.sort@),
            0,
        ),
        options.sort@.len() == 0 ==> f.merged(options)[i].score.rank() >= f.merged(
            options,
        )[j].score.rank(),
{
    arranging_sorts(f.documents@, orders(options.sort@));
    ranking_is_a_descending_permutation(f.documents@);
}

} // verus!
