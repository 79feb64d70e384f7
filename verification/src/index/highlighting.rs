//! Marking the words of a query in the text of a document.

use vstd::prelude::*;

use crate::index::entries::number_of;
use crate::index::fields::FieldMap;
use crate::index::queries::{
    fuzzy_text, plan_of, read_fuzzy_text, texts_without_marks_stay, PlanView,
};
use crate::json::Number;
use crate::model::document::{Document, FieldValue, FieldValueView};
use crate::model::error::DbError;
use crate::model::query::{lemma_bool_view, query_views, Operator, Query, QueryView};
use crate::text;

verus! {

/// How the words are marked.
#[derive(Clone, Debug, PartialEq, Eq)]
pub struct HighlightConfig {
    /// What stands before a marked word.
    pub pre_tag: String,
    /// What stands behind it.
    pub post_tag: String,
    /// How many fragments a field has at most.
    pub max_fragments: usize,
    /// How many characters a fragment has at most.
    pub fragment_size: usize,
}

impl Default for HighlightConfig {
    fn default() -> (c: Self)
        ensures
            c.pre_tag@ == "<em>"@,
            c.post_tag@ == "</em>"@,
            c.max_fragments == 3,
            c.fragment_size == 150,
    {
        HighlightConfig {
            pre_tag: "<em>".to_owned(),
            post_tag: "</em>".to_owned(),
            max_fragments: 3,
            fragment_size: 150,
        }
    }
}

/// The marked fragments of one field.
#[derive(Clone, Debug, PartialEq, Eq)]
pub struct HighlightResult {
    pub field: String,
    pub fragments: Vec<String>,
}

// ---------------------------------------------------------------------------
// The words of a query
// ---------------------------------------------------------------------------

/// The words that a query looks for in the field `field`.  What a text says of typing
/// errors is not one of its words.
pub open spec fn query_text(query: QueryView, field: Seq<char>) -> Seq<char>
    decreases query,
{
    match query {
        QueryView::FullText { field: f, query: words, .. } => if f == field {
            fuzzy_text(words).0
        } else {
            Seq::empty()
        },
        QueryView::Term { field: f, value } => if f == field {
            value
        } else {
            Seq::empty()
        },
        QueryView::Range { .. } => Seq::empty(),
        QueryView::Bool { must, should, must_not } => text::joined(
            query_texts(must, field) + query_texts(should, field),
            " "@,
        ),
    }
}

/// The words of each query of a list that has any.
pub open spec fn query_texts(queries: Seq<QueryView>, field: Seq<char>) -> Seq<Seq<char>>
    decreases queries,
{
    if queries.len() == 0 {
        Seq::empty()
    } else {
        let words = query_text(queries[queries.len() - 1], field);
        let before = query_texts(queries.drop_last(), field);
        if words.len() > 0 {
            before.push(words)
        } else {
            before
        }
    }
}

/// The words that a query looks for in the field `field`.  What must not match is not
/// looked for.
pub fn extract_query_text(query: &Query, field: &str) -> (r: String)
    ensures
        r@ == query_text(query@, field@),
        query matches Query::Term(q) ==> (q.field@ == field@ ==> r@ == q.value@),
    decreases query,
{
    match query {
        Query::FullText(q) => {
            if text::same(q.field.as_str(), field) {
                read_fuzzy_text(q.query.as_str()).0
            } else {
                let none = String::new();
                assert(none@ =~= Seq::empty());
                none
            }
        },
        Query::Term(q) => {
            if text::same(q.field.as_str(), field) {
                q.value.clone()
            } else {
                let none = String::new();
                assert(none@ =~= Seq::empty());
                none
            }
        },
        Query::Range(_) => {
            let none = String::new();
            assert(none@ =~= Seq::empty());
            none
        },
        Query::Bool(q) => {
            proof {
                lemma_bool_view(*q);
            }
            let mut parts: Vec<String> = Vec::new();
            assert(text::texts(parts@) =~= Seq::empty());
            add_query_texts(&mut parts, &q.must, field);
            add_query_texts(&mut parts, &q.should, field);
            assert(text::texts(parts@) =~= query_texts(query_views(q.must@), field@) + query_texts(
                query_views(q.should@),
                field@,
            ));
            text::join(&parts, " ")
        },
    }
}

fn add_query_texts(parts: &mut Vec<String>, queries: &Vec<Query>, field: &str)
    ensures
        text::texts(final(parts)@) == text::texts(old(parts)@) + query_texts(
            query_views(queries@),
            field@,
        ),
    decreases queries,
{
    let ghost all = query_views(queries@);
    assert(text::texts(parts@) =~= text::texts(parts@) + query_texts(all.take(0), field@));
    let mut i: usize = 0;
    while i < queries.len()
        invariant
            i <= queries@.len(),
            all == query_views(queries@),
            text::texts(parts@) == text::texts(old(parts)@) + query_texts(
                all.take(i as int),
                field@,
            ),
        decreases queries@.len() - i,
    {
        proof {
            assert(all.take(i + 1).drop_last() =~= all.take(i as int));
            assert(all.take(i + 1)[i as int] == queries@[i as int]@);
        }
        let words = extract_query_text(&queries[i], field);
        if words.as_str().unicode_len() > 0 {
            let ghost before = parts@;
            parts.push(words);
            proof {
                text::lemma_texts_push(before, words);
            }
        }
        i = i + 1;
        assert(text::texts(parts@) =~= text::texts(old(parts)@) + query_texts(
            all.take(i as int),
            field@,
        ));
    }
    assert(all.take(i as int) =~= all);
}

// ---------------------------------------------------------------------------
// Fragments
// ---------------------------------------------------------------------------

/// What the index is asked to mark: the number of the field, its text, and the words.
#[derive(Debug)]
pub struct Request {
    pub field: u32,
    pub text: String,
    pub words: String,
}

/// The mathematical value of a [`Request`].
pub struct RequestView {
    pub field: u32,
    pub text: Seq<char>,
    pub words: Seq<char>,
}

/// What there is to mark in a field: nothing where the document has no text in it,
/// where the schema does not know it, or where the query looks for nothing in it.
pub open spec fn request_of(
    map: Map<Seq<char>, u32>,
    doc: Document,
    query: QueryView,
    field: Seq<char>,
) -> Option<RequestView> {
    let words = query_text(query, field);
    if doc@.fields.contains_key(field) && map.contains_key(field) && words.len() > 0 {
        match doc@.fields[field] {
            FieldValueView::Text(text) => Some(RequestView { field: map[field], text, words }),
            _ => None,
        }
    } else {
        None
    }
}

/// What there is to mark in a field.
pub fn highlight_request(map: &FieldMap, doc: &Document, query: &Query, field: &str) -> (r: Option<
    Request,
>)
    ensures
        match (r, request_of(map@, *doc, query@, field@)) {
            (Some(r), Some(v)) => r.field == v.field && r.text@ == v.text && r.words@ == v.words,
            (None, None) => true,
            _ => false,
        },
{
    let text = match doc.get_field(field) {
        Some(FieldValue::Text(t)) => t.clone(),
        _ => {
            return None;
        },
    };
    let number = match number_of(map, field) {
        Some(n) => n,
        None => {
            return None;
        },
    };
    let words = extract_query_text(query, field);
    if words.as_str().unicode_len() == 0 {
        return None;
    }
    Some(Request { field: number, text, words })
}

/// The marked text of a fragment: the index's own marks, `<b>` and `</b>`, give way to
/// those of the configuration.
pub open spec fn retagged(html: Seq<char>, config: HighlightConfig) -> Seq<char> {
    text::replaced(text::replaced(html, "<b>"@, config.pre_tag@), "</b>"@, config.post_tag@)
}

/// The fragments of a field of which the index has marked the words.
pub open spec fn fragments_of(html: Seq<char>, config: HighlightConfig) -> Seq<Seq<char>> {
    if retagged(html, config).len() > 0 && config.max_fragments > 0 {
        seq![retagged(html, config)]
    } else {
        Seq::empty()
    }
}

/// The fragments of a field of which the index has marked the words.
pub fn fragments(html: &str, config: &HighlightConfig) -> (out: Vec<String>)
    ensures
        text::texts(out@) == fragments_of(html@, *config),
{
    proof {
        reveal_strlit("<b>");
        reveal_strlit("</b>");
    }
    let first = text::replace_all(html, "<b>", config.pre_tag.as_str());
    let highlighted = text::replace_all(first.as_str(), "</b>", config.post_tag.as_str());
    let mut out: Vec<String> = Vec::new();
    if highlighted.as_str().unicode_len() > 0 && config.max_fragments > 0 {
        out.push(highlighted);
    }
    assert(text::texts(out@) =~= fragments_of(html@, *config));
    out
}

/// The fragments of a field.  `snippet` asks the index to mark the words of a request
/// in a text of at most so many characters; where it fails, its error is handed on.
pub fn highlight_field<F: Fn(&Request, usize) -> Result<String, DbError>>(
    map: &FieldMap,
    doc: &Document,
    query: &Query,
    field: &str,
    config: &HighlightConfig,
    snippet: &F,
) -> (r: Result<Vec<String>, DbError>)
    requires
        forall|q: Request| #[trigger] snippet.requires((&q, config.fragment_size)),
    ensures
        match request_of(map@, *doc, query@, field@) {
            None => r matches Ok(out) && out@.len() == 0,
            Some(v) => exists|q: Request, reply: Result<String, DbError>|
                #![trigger snippet.ensures((&q, config.fragment_size), reply)]
                {
                    &&& snippet.ensures((&q, config.fragment_size), reply)
                    &&& q.field == v.field
                    &&& q.text@ == v.text
                    &&& q.words@ == v.words
                    &&& match (r, reply) {
                        (Ok(out), Ok(html)) => text::texts(out@) == fragments_of(html@, *config),
                        (Err(e), Err(cause)) => e == cause,
                        _ => false,
                    }
                },
        },
{
    match highlight_request(map, doc, query, field) {
        None => Ok(Vec::new()),
        Some(request) => {
            let reply = snippet(&request, config.fragment_size);
            assert(snippet.ensures((&request, config.fragment_size), reply));
            match reply {
                Ok(html) => Ok(fragments(html.as_str(), config)),
                Err(e) => Err(e),
            }
        },
    }
}

/// The fragments of a field are those that [`highlight_field`] gives; a field that the
/// index fails on has none.
pub open spec fn highlighted<F: Fn(&Request, usize) -> Result<String, DbError>>(
    map: Map<Seq<char>, u32>,
    doc: Document,
    query: QueryView,
    field: Seq<char>,
    config: HighlightConfig,
    snippet: F,
    fragments: Seq<Seq<char>>,
) -> bool {
    match request_of(map, doc, query, field) {
        None => fragments.len() == 0,
        Some(v) => exists|q: Request, reply: Result<String, DbError>|
            #![trigger snippet.ensures((&q, config.fragment_size), reply)]
            {
                &&& snippet.ensures((&q, config.fragment_size), reply)
                &&& q.field == v.field
                &&& q.text@ == v.text
                &&& q.words@ == v.words
                &&& match reply {
                    Ok(html) => fragments == fragments_of(html@, config),
                    Err(_) => fragments.len() == 0,
                }
            },
    }
}

/// The fragments of each of the fields, in their order.
pub fn highlight<F: Fn(&Request, usize) -> Result<String, DbError>>(
    map: &FieldMap,
    doc: &Document,
    query: &Query,
    fields: &Vec<String>,
    config: &HighlightConfig,
    snippet: &F,
) -> (out: Vec<HighlightResult>)
    requires
        forall|q: Request| #[trigger] snippet.requires((&q, config.fragment_size)),
    ensures
        out@.len() == fields@.len(),
        forall|i: int|
            0 <= i < fields@.len() ==> (#[trigger] out@[i]).field@ == fields@[i]@ && highlighted(
                map@,
                *doc,
                query@,
                fields@[i]@,
                *config,
                *snippet,
                text::texts(out@[i].fragments@),
            ),
{
    let mut out: Vec<HighlightResult> = Vec::new();
    let mut i: usize = 0;
    while i < fields.len()
        invariant
            i <= fields@.len(),
            out@.len() == i,
            forall|q: Request| #[trigger] snippet.requires((&q, config.fragment_size)),
            forall|j: int|
                0 <= j < i ==> (#[trigger] out@[j]).field@ == fields@[j]@ && highlighted(
                    map@,
                    *doc,
                    query@,
                    fields@[j]@,
                    *config,
                    *snippet,
                    text::texts(out@[j].fragments@),
                ),
        decreases fields@.len() - i,
    {
        let fragments = match highlight_field(
            map,
            doc,
            query,
            fields[i].as_str(),
            config,
            snippet,
        ) {
            Ok(f) => f,
            Err(_) => Vec::new(),
        };
        assert(highlighted(
            map@,
            *doc,
            query@,
            fields@[i as int]@,
            *config,
            *snippet,
            text::texts(fragments@),
        ));
        out.push(HighlightResult { field: fields[i].clone(), fragments });
        i = i + 1;
    }
    out
}

/// A query that looks for nothing in a field leaves it unmarked, whatever it looks for
/// elsewhere.
pub proof fn other_fields_stay_unmarked(
    map: Map<Seq<char>, u32>,
    doc: Document,
    field: Seq<char>,
    query: QueryView,
)
    requires
        query matches QueryView::FullText { field: f, .. } && f != field,
    ensures
        request_of(map, doc, query, field) is None,
{
}

/// What a simple query looks for in a field: the value of a term and the words of a text,
/// where they are asked of that field, and nothing of any other field or of a range.
pub proof fn simple_queries_look_for_what_they_name(
    field: Seq<char>,
    other: Seq<char>,
    said: Seq<char>,
    operator: Operator,
    gte: Option<Number>,
    lte: Option<Number>,
)
    requires
        field != other,
    ensures
        query_text((QueryView::Term { field, value: said }), field) == said,
        query_text((QueryView::Term { field, value: said }), other).len() == 0,
        !said.contains('~') ==> query_text(
            (QueryView::FullText { field, query: said, operator }),
            field,
        ) == said,
        query_text((QueryView::FullText { field, query: said, operator }), other).len() == 0,
        query_text((QueryView::Range { field, gte, lte }), field).len() == 0,
{
    if !said.contains('~') {
        texts_without_marks_stay(said);
    }
}

/// What is marked is what is searched for: the words and the term of a plan are those that
/// are looked for in the field of the query.
pub proof fn what_is_searched_for_is_marked(
    field: Seq<char>,
    said: Seq<char>,
    operator: Operator,
    map: Map<Seq<char>, u32>,
)
    ensures
        plan_of((QueryView::FullText { field, query: said, operator }), map, true) matches Ok(
            PlanView::Words { text, .. },
        ) ==> query_text((QueryView::FullText { field, query: said, operator }), field) == text,
        plan_of((QueryView::Term { field, value: said }), map, true) matches Ok(
            PlanView::Term { value, .. },
        ) ==> query_text((QueryView::Term { field, value: said }), field) == value,
{
}

/// Of a list of queries those count that look for something in the field, all of them and
/// in their order.
pub proof fn each_clause_adds_its_words(queries: Seq<QueryView>, field: Seq<char>)
    ensures
        query_texts(queries, field) == queries.filter(
            |q: QueryView| query_text(q, field).len() > 0,
        ).map_values(|q: QueryView| query_text(q, field)),
    decreases queries.len(),
{
    let looks = |q: QueryView| query_text(q, field).len() > 0;
    let words = |q: QueryView| query_text(q, field);
    reveal(Seq::filter);
    if queries.len() > 0 {
        each_clause_adds_its_words(queries.drop_last(), field);
        let kept = queries.drop_last().filter(looks);
        let last = queries[queries.len() - 1];
        assert(last == queries.last());
        if looks(last) {
            assert(kept.push(last).map_values(words) =~= kept.map_values(words).push(
                words(last),
            ));
        }
    } else {
        assert(queries.filter(looks).map_values(words) =~= Seq::<Seq<char>>::empty());
    }
}

/// What a combination looks for: the words of those clauses of `must`, and behind them of
/// `should`, that look for something in the field, with blanks between them.
pub proof fn combinations_look_for_the_words_of_their_clauses(
    must: Seq<QueryView>,
    should: Seq<QueryView>,
    must_not: Seq<QueryView>,
    field: Seq<char>,
)
    ensures
        query_text((QueryView::Bool { must, should, must_not }), field) == text::joined(
            (must + should).filter(|q: QueryView| query_text(q, field).len() > 0).map_values(
                |q: QueryView| query_text(q, field),
            ),
            " "@,
        ),
{
    let looks = |q: QueryView| query_text(q, field).len() > 0;
    let words = |q: QueryView| query_text(q, field);
    each_clause_adds_its_words(must, field);
    each_clause_adds_its_words(should, field);
    Seq::filter_distributes_over_add(must, should, looks);
    assert((must + should).filter(looks).map_values(words) =~= must.filter(looks).map_values(words)
        + should.filter(looks).map_values(words));
}

/// The words of every clause of `must` and `should` are among those that a combination
/// looks for.
pub proof fn the_words_of_a_clause_are_looked_for(
    must: Seq<QueryView>,
    should: Seq<QueryView>,
    must_not: Seq<QueryView>,
    field: Seq<char>,
    clause: QueryView,
)
    requires
        must.contains(clause) || should.contains(clause),
    ensures
        text::occurs(
            query_text((QueryView::Bool { must, should, must_not }), field),
            query_text(clause, field),
        ),
{
    let looks = |q: QueryView| query_text(q, field).len() > 0;
    let all = must + should;
    let parts = all.filter(looks).map_values(|q: QueryView| query_text(q, field));
    let whole = query_text(QueryView::Bool { must, should, must_not }, field);
    let words = query_text(clause, field);
    combinations_look_for_the_words_of_their_clauses(must, should, must_not, field);
    if words.len() > 0 {
        if must.contains(clause) {
            let i = choose|i: int| 0 <= i < must.len() && must[i] == clause;
            assert(all[i] == clause);
        } else {
            let i = choose|i: int| 0 <= i < should.len() && should[i] == clause;
            assert(all[must.len() + i] == clause);
        }
        assert(looks(clause));
        broadcast use vstd::seq_lib::group_filter_ensures;
        let n = choose|n: int| 0 <= n < all.len() && all[n] == clause;
        assert(all.filter(looks).contains(all[n]));
        let k = choose|k: int|
            0 <= k < all.filter(looks).len() && all.filter(looks)[k] == clause;
        assert(parts[k] == words);
        text::joined_strings_occur(parts, " "@, k);
    } else {
        assert(whole.subrange(0, 0) =~= words);
        assert(text::occurs_at(whole, words, 0));
    }
}

/// A term that `must` or `should` asks for is among the words that are looked for in its
/// field.
pub proof fn the_term_of_a_clause_is_looked_for(
    must: Seq<QueryView>,
    should: Seq<QueryView>,
    must_not: Seq<QueryView>,
    field: Seq<char>,
    value: Seq<char>,
)
    requires
        must.contains((QueryView::Term { field, value })) || should.contains(
            (QueryView::Term { field, value }),
        ),
    ensures
        text::occurs(query_text((QueryView::Bool { must, should, must_not }), field), value),
{
    let clause = QueryView::Term { field, value };
    the_words_of_a_clause_are_looked_for(must, should, must_not, field, clause);
}

/// What must not match is not looked for.
pub proof fn exclusions_are_not_looked_for(
    must: Seq<QueryView>,
    should: Seq<QueryView>,
    a: Seq<QueryView>,
    b: Seq<QueryView>,
    field: Seq<char>,
)
    ensures
        query_text((QueryView::Bool { must, should, must_not: a }), field) == query_text(
            (QueryView::Bool { must, should, must_not: b }),
            field,
        ),
{
}

/// There is something to mark exactly where the document has a text in the field, the
/// schema knows the field and the query looks for something in it; and it is that text in
/// which those words are to be marked.
pub proof fn texts_are_marked_with_the_words(
    map: Map<Seq<char>, u32>,
    doc: Document,
    query: QueryView,
    field: Seq<char>,
)
    ensures
        request_of(map, doc, query, field) is Some <==> {
            &&& doc@.fields.contains_key(field)
            &&& doc@.fields[field] is Text
            &&& map.contains_key(field)
            &&& query_text(query, field).len() > 0
        },
        request_of(map, doc, query, field) matches Some(request) ==> {
            &&& request.field == map[field]
            &&& doc@.fields[field] == FieldValueView::Text(request.text)
            &&& request.words == query_text(query, field)
        },
{
}

/// A term is marked in a text of its field.
pub proof fn a_term_is_marked_in_its_field(
    map: Map<Seq<char>, u32>,
    doc: Document,
    field: Seq<char>,
    value: Seq<char>,
    text: Seq<char>,
)
    requires
        value.len() > 0,
        map.contains_key(field),
        doc@.fields.contains_key(field),
        doc@.fields[field] == FieldValueView::Text(text),
    ensures
        request_of(map, doc, (QueryView::Term { field, value }), field) matches Some(request)
            && request.field == map[field] && request.text == text && request.words == value,
{
}

/// The marks of the index give way to those of the configuration, and the text round them
/// stays as it is.
pub proof fn marks_are_those_of_the_configuration(
    a: Seq<char>,
    word: Seq<char>,
    b: Seq<char>,
    config: HighlightConfig,
)
    requires
        !a.contains('<'),
        !word.contains('<'),
        !b.contains('<'),
        forall|j: int|
            0 <= j < (a + config.pre_tag@ + word).len() ==> !text::occurs_at(
                a + config.pre_tag@ + word + "</b>"@ + b,
                "</b>"@,
                j,
            ),
    ensures
        retagged(a + "<b>"@ + word + "</b>"@ + b, config) == a + config.pre_tag@ + word
            + config.post_tag@ + b,
        fragments_of(a + "<b>"@ + word + "</b>"@ + b, config) == if config.max_fragments > 0
            && (a + config.pre_tag@ + word + config.post_tag@ + b).len() > 0 {
            seq![a + config.pre_tag@ + word + config.post_tag@ + b]
        } else {
            Seq::empty()
        },
{
    reveal_strlit("<b>");
    reveal_strlit("</b>");
    let open = "<b>"@;
    let close = "</b>"@;
    let pre = config.pre_tag@;
    let post = config.post_tag@;
    let html = a + open + word + close + b;
    let tail = word + close + b;
    assert forall|j: int| 0 <= j < a.len() implies !text::occurs_at(html, open, j) by {
        if text::occurs_at(html, open, j) {
            assert(html.subrange(j, j + 3)[0] == '<');
            assert(html[j] == a[j]);
            assert(a.contains(a[j]));
        }
    }
    assert(html.subrange(a.len() as int, (a.len() + 3) as int) =~= open);
    assert(text::occurs_at(html, open, a.len() as int));
    text::occurrences_are_replaced(html, open, pre, a.len() as int);
    assert(html.take(a.len() as int) =~= a);
    assert(html.skip((a.len() + 3) as int) =~= tail);
    assert forall|j: int| 0 <= j < tail.len() implies !text::occurs_at(tail, open, j) by {
        if text::occurs_at(tail, open, j) {
            let found = tail.subrange(j, j + 3);
            assert(found[0] == '<' && found[1] == 'b');
            assert(tail[j] == '<' && tail[j + 1] == 'b');
            if j < word.len() {
                assert(word.contains(word[j]));
            } else if j < word.len() + 4 {
                assert(tail[j + 1] == 'b');
            } else {
                assert(b.contains(b[j - word.len() - 4]));
            }
        }
    }
    text::occurrences_are_replaced(tail, open, pre, tail.len() as int);
    let first = a + pre + word + close + b;
    assert(text::replaced(html, open, pre) =~= first);
    let at = (a + pre + word).len() as int;
    assert(first.subrange(at, at + 4) =~= close);
    assert(text::occurs_at(first, close, at));
    text::occurrences_are_replaced(first, close, post, at);
    assert(first.take(at) =~= a + pre + word);
    assert(first.skip(at + 4) =~= b);
    assert forall|j: int| 0 <= j < b.len() implies !text::occurs_at(b, close, j) by {
        if text::occurs_at(b, close, j) {
            assert(b.subrange(j, j + 4)[0] == '<');
            assert(b.contains(b[j]));
        }
    }
    text::occurrences_are_replaced(b, close, post, b.len() as int);
    assert(retagged(html, config) =~= a + pre + word + post + b);
}

// ---------------------------------------------------------------------------
// Laws
// ---------------------------------------------------------------------------

/// The fragments of a field come from what the index marks in the text of that field, with
/// the words of the query; where there is nothing to mark, and where the index fails, there
/// are none.
pub proof fn fragments_come_from_the_marked_text<F: Fn(&Request, usize) -> Result<String, DbError>>(
    map: Map<Seq<char>, u32>,
    doc: Document,
    query: QueryView,
    field: Seq<char>,
    config: HighlightConfig,
    snippet: F,
    fragments: Seq<Seq<char>>,
)
    requires
        highlighted(map, doc, query, field, config, snippet, fragments),
    ensures
        !doc@.fields.contains_key(field) || doc@.fields[field] !is Text || !map.contains_key(field)
            || query_text(query, field).len() == 0 ==> fragments.len() == 0,
        fragments.len() > 0 ==> exists|q: Request, reply: Result<String, DbError>|
            {
                &&& #[trigger] snippet.ensures((&q, config.fragment_size), reply)
                &&& q.field == map[field]
                &&& doc@.fields[field] == FieldValueView::Text(q.text@)
                &&& q.words@ == query_text(query, field)
                &&& reply matches Ok(html) && fragments == seq![retagged(html@, config)]
            },
{
    if fragments.len() > 0 {
        let v = request_of(map, doc, query, field)->0;
        let (q, reply) = choose|q: Request, reply: Result<String, DbError>|
            #![trigger snippet.ensures((&q, config.fragment_size), reply)]
            {
                &&& snippet.ensures((&q, config.fragment_size), reply)
                &&& q.field == v.field
                &&& q.text@ == v.text
                &&& q.words@ == v.words
                &&& match reply {
                    Ok(html) => fragments == fragments_of(html@, config),
                    Err(_) => fragments.len() == 0,
                }
            };
        assert(snippet.ensures((&q, config.fragment_size), reply));
    }
}

} // verus!
