//! Queries as the index runs them.
//!
//! A query speaks of fields by name.  A plan speaks of them by number, and says how
//! the words of a text are combined and how many typing errors they may have.  A term
//! with wildcards becomes a regular expression.

use vstd::prelude::*;

use crate::index::entries::number_of;
use crate::index::fields::FieldMap;
use crate::json::Number;
use crate::model::error::DbError;
use crate::model::query::{
    lemma_bool_view, query_views, BoolQuery, FullTextQuery, Operator, Query, QueryView,
    RangeQuery, TermQuery,
};
use crate::text;

verus! {

/// How a clause bears on the result: it has to match, it adds to the relevance, or it
/// must not match.
#[derive(Clone, Copy, Debug, PartialEq, Eq, Structural)]
pub enum Occur {
    Must,
    Should,
    MustNot,
}

/// A query as the index runs it.
#[derive(Debug)]
pub enum Plan {
    /// The words of a text, all of them or any, with up to so many typing errors.
    Words { field: u32, text: String, conjunction: bool, fuzzy: Option<u8> },
    /// One exact term.
    Term { field: u32, value: String },
    /// Every term that the regular expression matches as a whole.
    Pattern { field: u32, regex: String },
    /// The numbers between two bounds, which belong to the range.
    Range { field: u32, name: String, gte: Option<Number>, lte: Option<Number> },
    /// A combination of clauses.
    Bool(Vec<(Occur, Plan)>),
    /// Every document.
    All,
}

/// The mathematical value of a [`Plan`].
#[verifier::ext_equal]
pub enum PlanView {
    Words { field: u32, text: Seq<char>, conjunction: bool, fuzzy: Option<u8> },
    Term { field: u32, value: Seq<char> },
    Pattern { field: u32, regex: Seq<char> },
    Range { field: u32, name: Seq<char>, gte: Option<Number>, lte: Option<Number> },
    Bool(Seq<(Occur, PlanView)>),
    All,
}

impl View for Plan {
    type V = PlanView;

    open spec fn view(&self) -> PlanView
        decreases self,
    {
        match self {
            Plan::Words { field, text, conjunction, fuzzy } => PlanView::Words {
                field: *field,
                text: text@,
                conjunction: *conjunction,
                fuzzy: *fuzzy,
            },
            Plan::Term { field, value } => PlanView::Term { field: *field, value: value@ },
            Plan::Pattern { field, regex } => PlanView::Pattern { field: *field, regex: regex@ },
            Plan::Range { field, name, gte, lte } => PlanView::Range {
                field: *field,
                name: name@,
                gte: *gte,
                lte: *lte,
            },
            Plan::Bool(clauses) => PlanView::Bool(
                Seq::new(
                    clauses@.len(),
                    |i: int|
                        if 0 <= i < clauses@.len() {
                            (clauses@[i].0, clauses@[i].1.view())
                        } else {
                            arbitrary()
                        },
                ),
            ),
            Plan::All => PlanView::All,
        }
    }
}

/// The values of a list of clauses.
pub open spec fn clause_views(clauses: Seq<(Occur, Plan)>) -> Seq<(Occur, PlanView)> {
    Seq::new(clauses.len(), |i: int| (clauses[i].0, clauses[i].1@))
}

proof fn lemma_bool_plan(clauses: Vec<(Occur, Plan)>)
    ensures
        Plan::Bool(clauses)@ == PlanView::Bool(clause_views(clauses@)),
{
    reveal_with_fuel(<Plan as View>::view, 2);
    let v = Plan::Bool(clauses)@;
    assert(v is Bool);
    assert(v->Bool_0 =~= clause_views(clauses@));
}

// ---------------------------------------------------------------------------
// Typing errors
// ---------------------------------------------------------------------------

/// How many typing errors a word such as `rust~1` allows.  One or two can be allowed.
pub open spec fn fuzzy_word(word: Seq<char>) -> Option<nat> {
    match text::last_index(word, '~') {
        Some(at) => match text::parsed_unsigned(word.skip(at + 1), 255) {
            Some(d) => if 1 <= d <= 2 {
                Some(d)
            } else {
                None
            },
            None => None,
        },
        None => None,
    }
}

/// The word without a number behind its last tilde, and without that tilde.
pub open spec fn unmarked(word: Seq<char>) -> Seq<char> {
    match text::last_index(word, '~') {
        Some(at) => if text::parsed_unsigned(word.skip(at + 1), u64::MAX as nat) is Some {
            word.take(at)
        } else {
            word
        },
        None => word,
    }
}

/// The text without its tildes.
pub open spec fn without_tildes(s: Seq<char>) -> Seq<char>
    decreases s.len(),
{
    if s.len() == 0 {
        s
    } else if s.last() == '~' {
        without_tildes(s.drop_last())
    } else {
        without_tildes(s.drop_last()).push(s.last())
    }
}

/// The words without the numbers that mark them, such as `~1`, and without any other tilde.
pub open spec fn cleaned(words: Seq<Seq<char>>) -> Seq<Seq<char>> {
    Seq::new(words.len(), |i: int| without_tildes(unmarked(words[i])))
}

fn clean_word(word: &str) -> (r: String)
    ensures
        r@ == without_tildes(unmarked(word@)),
{
    let chars = text::chars_of(word);
    let mut n: usize = chars.len();
    if let Some(at) = text::find_last(&chars, '~') {
        assert(chars.len() == chars@.len());
        let digits = text::string_of(&chars, at + 1, chars.len());
        assert(digits@ =~= word@.skip(at + 1));
        if text::parse_unsigned(digits.as_str(), u64::MAX).is_some() {
            n = at;
        }
    }
    assert(chars@.take(n as int) =~= unmarked(word@));
    let mut r = String::new();
    assert(r@ =~= without_tildes(chars@.take(0)));
    let mut i: usize = 0;
    while i < n
        invariant
            i <= n <= chars@.len(),
            r@ == without_tildes(chars@.take(i as int)),
        decreases n - i,
    {
        let c = chars[i];
        proof {
            assert(chars@.take(i + 1).drop_last() =~= chars@.take(i as int));
            assert(chars@.take(i + 1).last() == c);
        }
        if c != '~' {
            r.push(c);
        }
        i = i + 1;
    }
    r
}

/// How many typing errors the first word that allows any allows.
pub open spec fn first_distance(words: Seq<Seq<char>>) -> Option<nat>
    decreases words.len(),
{
    if words.len() == 0 {
        None
    } else {
        match first_distance(words.drop_last()) {
            Some(d) => Some(d),
            None => match fuzzy_word(words.last()) {
                Some(d) => Some(d),
                None => None,
            },
        }
    }
}

/// What a text with words that allow typing errors asks for.
pub open spec fn fuzzy_params(query: Seq<char>) -> Option<(Seq<char>, nat)> {
    match first_distance(text::words(query)) {
        Some(d) => Some((text::joined(cleaned(text::words(query)), " "@), d)),
        None => None,
    }
}

/// A text with words that allow typing errors.
#[derive(Debug)]
pub struct FuzzyParams {
    /// The text without what it says of typing errors.
    pub clean_query: String,
    /// How many are allowed.
    pub distance: u8,
}

fn read_fuzzy_word(word: &str) -> (r: Option<u8>)
    ensures
        match (r, fuzzy_word(word@)) {
            (Some(d), Some(n)) => d == n,
            (None, None) => true,
            _ => false,
        },
{
    let chars = text::chars_of(word);
    match text::find_last(&chars, '~') {
        Some(at) => {
            assert(chars.len() == chars@.len());
            let digits = text::string_of(&chars, at + 1, chars.len());
            assert(digits@ =~= word@.skip(at + 1));
            match text::parse_unsigned(digits.as_str(), 255) {
                Some(d) => if 1 <= d && d <= 2 {
                    Some(d as u8)
                } else {
                    None
                },
                None => None,
            }
        },
        None => None,
    }
}

/// What a text with words that allow typing errors asks for: the first such word says
/// how many, and no word keeps a tilde.  `None` where no word allows any.
pub fn extract_fuzzy_params(query: &str) -> (r: Option<FuzzyParams>)
    ensures
        match (r, fuzzy_params(query@)) {
            (Some(p), Some((clean, d))) => p.clean_query@ == clean && p.distance == d,
            (None, None) => true,
            _ => false,
        },
{
    let words = text::split_whitespace(query);
    let mut distance: Option<u8> = None;
    let mut clean: Vec<String> = Vec::new();
    let ghost all = text::words(query@);
    assert(text::texts(clean@) =~= cleaned(all).take(0));
    let mut i: usize = 0;
    while i < words.len()
        invariant
            i <= words@.len(),
            all == text::texts(words@),
            text::texts(clean@) == cleaned(all).take(i as int),
            match (distance, first_distance(all.take(i as int))) {
                (Some(d), Some(n)) => d == n,
                (None, None) => true,
                _ => false,
            },
        decreases words@.len() - i,
    {
        proof {
            assert(all.take(i + 1).drop_last() =~= all.take(i as int));
            assert(all.take(i + 1).last() == words@[i as int]@);
        }
        if let Some(d) = read_fuzzy_word(words[i].as_str()) {
            if distance.is_none() {
                distance = Some(d);
            }
        }
        let part = clean_word(words[i].as_str());
        proof {
            text::lemma_texts_push(clean@, part);
            assert(cleaned(all).take(i + 1) =~= cleaned(all).take(i as int).push(part@));
        }
        clean.push(part);
        i = i + 1;
    }
    assert(all.take(i as int) =~= all);
    assert(cleaned(all).take(i as int) =~= cleaned(all));
    match distance {
        Some(distance) => Some(FuzzyParams { clean_query: text::join(&clean, " "), distance }),
        None => None,
    }
}

/// No word of a text that allows typing errors keeps a tilde, and a word without one stays
/// as it is.
pub proof fn cleaned_words_have_no_tilde(words: Seq<Seq<char>>, i: int)
    requires
        0 <= i < words.len(),
    ensures
        !cleaned(words)[i].contains('~'),
        !words[i].contains('~') ==> cleaned(words)[i] == words[i],
{
    lemma_without_tildes(unmarked(words[i]));
    if !words[i].contains('~') {
        lemma_no_last_tilde(words[i]);
    }
}

proof fn lemma_without_tildes(s: Seq<char>)
    ensures
        !without_tildes(s).contains('~'),
        !s.contains('~') ==> without_tildes(s) == s,
    decreases s.len(),
{
    if s.len() > 0 {
        let front = without_tildes(s.drop_last());
        lemma_without_tildes(s.drop_last());
        let all = without_tildes(s);
        assert forall|j: int| 0 <= j < all.len() implies all[j] != '~' by {
            if j < front.len() {
                assert(front.contains(front[j]));
                assert(all[j] == front[j]);
            }
        }
        if !s.contains('~') {
            assert(s.contains(s[s.len() - 1]));
            assert forall|j: int| 0 <= j < s.drop_last().len() implies s.drop_last()[j] != '~' by {
                assert(s.contains(s[j]));
            }
            assert(all =~= s);
        }
    }
}

proof fn lemma_no_last_tilde(s: Seq<char>)
    requires
        !s.contains('~'),
    ensures
        text::last_index(s, '~') is None,
    decreases s.len(),
{
    if s.len() > 0 {
        assert(s.contains(s[s.len() - 1]));
        assert forall|j: int| 0 <= j < s.drop_last().len() implies s.drop_last()[j] != '~' by {
            assert(s.contains(s[j]));
        }
        lemma_no_last_tilde(s.drop_last());
    }
}

/// A text that begins with the number of typing errors that it allows, such as
/// `~1:rust`: the number, and the rest of the text.
pub open spec fn marked_fuzzy(query: Seq<char>) -> Option<(nat, Seq<char>)> {
    let colon = text::first_index(query, ':', 0);
    if colon < query.len() && query[0] == '~' {
        match text::parsed_unsigned(query.subrange(1, colon), 255) {
            Some(d) => Some((d, query.skip(colon + 1))),
            None => None,
        }
    } else {
        None
    }
}

fn read_marked_fuzzy(query: &str) -> (r: Option<(u8, String)>)
    ensures
        match (r, marked_fuzzy(query@)) {
            (Some((d, rest)), Some((n, view))) => d == n && rest@ == view,
            (None, None) => true,
            _ => false,
        },
{
    let chars = text::chars_of(query);
    let colon = text::find_from(&chars, ':', 0);
    if colon < chars.len() && chars[0] == '~' {
        let digits = text::string_of(&chars, 1, colon);
        assert(digits@ =~= query@.subrange(1, colon as int));
        match text::parse_unsigned(digits.as_str(), 255) {
            Some(d) => {
                let rest = text::string_of(&chars, colon + 1, chars.len());
                assert(rest@ =~= query@.skip(colon + 1));
                Some((d as u8, rest))
            },
            None => None,
        }
    } else {
        None
    }
}

/// The words to search for, and how many typing errors they may have.
pub open spec fn fuzzy_text(query: Seq<char>) -> (Seq<char>, Option<u8>) {
    match marked_fuzzy(query) {
        Some((d, rest)) => (
            rest,
            if 1 <= d <= 2 {
                Some(d as u8)
            } else {
                None
            },
        ),
        None => match fuzzy_params(query) {
            Some((clean, d)) => (clean, Some(d as u8)),
            None => (query, None),
        },
    }
}

pub(crate) fn read_fuzzy_text(query: &str) -> (r: (String, Option<u8>))
    ensures
        (r.0@, r.1) == fuzzy_text(query@),
{
    if let Some((d, rest)) = read_marked_fuzzy(query) {
        return (
            rest,
            if 1 <= d && d <= 2 {
                Some(d)
            } else {
                None
            },
        );
    }
    match extract_fuzzy_params(query) {
        Some(p) => (p.clean_query, Some(p.distance)),
        None => (query.to_owned(), None),
    }
}

// ---------------------------------------------------------------------------
// Wildcards
// ---------------------------------------------------------------------------

/// The term has wildcards: `*` for any characters, or `?` for a single one.
pub open spec fn has_wildcards(value: Seq<char>) -> bool {
    exists|i: int| 0 <= i < value.len() && (#[trigger] value[i] == '*' || value[i] == '?')
}

/// The character means something else than itself in a regular expression.
pub open spec fn is_special(c: char) -> bool {
    ||| c == '\\' || c == '.' || c == '+' || c == '(' || c == ')' || c == '|'
    ||| c == '[' || c == ']' || c == '{' || c == '}' || c == '^' || c == '$'
    ||| c == '#' || c == '&' || c == '-' || c == '~'
}

/// What a character of a pattern matches, as a regular expression.
pub open spec fn glyph(c: char) -> Seq<char> {
    if c == '*' {
        "(?s:.*)"@
    } else if c == '?' {
        "(?s:.)"@
    } else if is_special(c) {
        seq!['\\', c]
    } else {
        seq![c]
    }
}

/// The regular expression of a pattern.
pub open spec fn pattern_regex(pattern: Seq<char>) -> Seq<char>
    decreases pattern.len(),
{
    if pattern.len() == 0 {
        Seq::empty()
    } else {
        pattern_regex(pattern.drop_last()) + glyph(pattern.last())
    }
}

fn glyph_of(c: char) -> (r: String)
    ensures
        r@ == glyph(c),
{
    if c == '*' {
        return "(?s:.*)".to_owned();
    }
    if c == '?' {
        return "(?s:.)".to_owned();
    }
    let special = c == '\\' || c == '.' || c == '+' || c == '(' || c == ')' || c == '|' || c == '['
        || c == ']' || c == '{' || c == '}' || c == '^' || c == '$' || c == '#' || c == '&' || c
        == '-' || c == '~';
    let mut r = String::new();
    if special {
        r.push('\\');
    }
    r.push(c);
    assert(r@ =~= glyph(c));
    r
}

/// The regular expression of a term with wildcards; none where it has no wildcards.
pub fn wildcard_regex(value: &str) -> (r: Option<String>)
    ensures
        match r {
            Some(regex) => has_wildcards(value@) && regex@ == pattern_regex(value@),
            None => !has_wildcards(value@),
        },
{
    let chars = text::chars_of(value);
    let mut regex = String::new();
    let mut found = false;
    let mut i: usize = 0;
    assert(regex@ =~= pattern_regex(chars@.take(0)));
    while i < chars.len()
        invariant
            i <= chars@.len(),
            regex@ == pattern_regex(chars@.take(i as int)),
            found == has_wildcards(chars@.take(i as int)),
        decreases chars@.len() - i,
    {
        let c = chars[i];
        let ghost front = chars@.take(i as int);
        let ghost next = chars@.take(i + 1);
        proof {
            assert(next.drop_last() =~= front);
            assert(next.last() == c);
            assert(next[i as int] == c);
            if has_wildcards(front) {
                let k = choose|k: int|
                    0 <= k < front.len() && (#[trigger] front[k] == '*' || front[k] == '?');
                assert(next[k] == front[k]);
            }
            if has_wildcards(next) && c != '*' && c != '?' {
                let k = choose|k: int|
                    0 <= k < next.len() && (#[trigger] next[k] == '*' || next[k] == '?');
                assert(front[k] == next[k]);
            }
        }
        if c == '*' || c == '?' {
            found = true;
        }
        regex = text::concat2(regex.as_str(), glyph_of(c).as_str());
        i = i + 1;
    }
    assert(chars@.take(i as int) =~= chars@);
    if found {
        Some(regex)
    } else {
        None
    }
}

// ---------------------------------------------------------------------------
// Translation
// ---------------------------------------------------------------------------

/// The error of a field that the schema does not know.
pub open spec fn unknown_field(field: Seq<char>) -> Seq<char> {
    "field '"@ + field + "' not in schema"@
}

/// The plan of a query, or the text of its first error.
pub open spec fn plan_of(query: QueryView, map: Map<Seq<char>, u32>, fuzzy: bool) -> Result<
    PlanView,
    Seq<char>,
>
    decreases query,
{
    match query {
        QueryView::FullText { field, query: words, operator } => if map.contains_key(field) {
            let (text, distance) = if fuzzy {
                fuzzy_text(words)
            } else {
                (words, None)
            };
            Ok(
                PlanView::Words {
                    field: map[field],
                    text,
                    conjunction: operator == Operator::And,
                    fuzzy: distance,
                },
            )
        } else {
            Err(unknown_field(field))
        },
        QueryView::Term { field, value } => if map.contains_key(field) {
            if fuzzy && field != "_id"@ && has_wildcards(value) {
                Ok(PlanView::Pattern { field: map[field], regex: pattern_regex(value) })
            } else {
                Ok(PlanView::Term { field: map[field], value })
            }
        } else {
            Err(unknown_field(field))
        },
        QueryView::Range { field, gte, lte } => if map.contains_key(field) {
            Ok(PlanView::Range { field: map[field], name: field, gte, lte })
        } else {
            Err(unknown_field(field))
        },
        QueryView::Bool { must, should, must_not } => {
            match clauses_of(must, Occur::Must, map, fuzzy) {
                Err(e) => Err(e),
                Ok(a) => match clauses_of(should, Occur::Should, map, fuzzy) {
                    Err(e) => Err(e),
                    Ok(b) => match clauses_of(must_not, Occur::MustNot, map, fuzzy) {
                        Err(e) => Err(e),
                        Ok(c) => Ok(
                            PlanView::Bool(
                                a + b + c + if must.len() == 0 && should.len() == 0
                                    && must_not.len() > 0 {
                                    seq![(Occur::Must, PlanView::All)]
                                } else {
                                    Seq::empty()
                                },
                            ),
                        ),
                    },
                },
            }
        },
    }
}

/// The clauses of a list of queries, or the text of the first error.
pub open spec fn clauses_of(
    queries: Seq<QueryView>,
    occur: Occur,
    map: Map<Seq<char>, u32>,
    fuzzy: bool,
) -> Result<Seq<(Occur, PlanView)>, Seq<char>>
    decreases queries,
{
    if queries.len() == 0 {
        Ok(Seq::empty())
    } else {
        match clauses_of(queries.drop_last(), occur, map, fuzzy) {
            Err(e) => Err(e),
            Ok(clauses) => match plan_of(queries[queries.len() - 1], map, fuzzy) {
                Err(e) => Err(e),
                Ok(plan) => Ok(clauses.push((occur, plan))),
            },
        }
    }
}

/// The result of a translation is the plan, or the first error.
pub open spec fn translates(r: Result<Plan, DbError>, expected: Result<PlanView, Seq<char>>) -> bool {
    match (r, expected) {
        (Ok(plan), Ok(view)) => plan@ == view,
        (Err(DbError::InvalidInput(m)), Err(text)) => m@ == text,
        _ => false,
    }
}

fn known_field(map: &FieldMap, field: &str) -> (r: Result<u32, DbError>)
    ensures
        match r {
            Ok(n) => map@.contains_key(field@) && n == map@[field@],
            Err(DbError::InvalidInput(m)) => !map@.contains_key(field@) && m@ == unknown_field(
                field@,
            ),
            Err(_) => false,
        },
{
    match number_of(map, field) {
        Some(n) => Ok(n),
        None => Err(DbError::InvalidInput(text::concat3("field '", field, "' not in schema"))),
    }
}

fn translate_full_text(q: &FullTextQuery, map: &FieldMap, fuzzy: bool) -> (r: Result<
    Plan,
    DbError,
>)
    ensures
        translates(r, plan_of(Query::FullText(*q)@, map@, fuzzy)),
{
    let field = match known_field(map, q.field.as_str()) {
        Ok(n) => n,
        Err(e) => {
            return Err(e);
        },
    };
    let (text, distance) = if fuzzy {
        read_fuzzy_text(q.query.as_str())
    } else {
        (q.query.clone(), None)
    };
    let conjunction = match q.operator {
        Operator::And => true,
        Operator::Or => false,
    };
    Ok(Plan::Words { field, text, conjunction, fuzzy: distance })
}

fn translate_term(q: &TermQuery, map: &FieldMap, fuzzy: bool) -> (r: Result<Plan, DbError>)
    ensures
        translates(r, plan_of(Query::Term(*q)@, map@, fuzzy)),
{
    let field = match known_field(map, q.field.as_str()) {
        Ok(n) => n,
        Err(e) => {
            return Err(e);
        },
    };
    if fuzzy && !text::same(q.field.as_str(), "_id") {
        if let Some(regex) = wildcard_regex(q.value.as_str()) {
            return Ok(Plan::Pattern { field, regex });
        }
    }
    Ok(Plan::Term { field, value: q.value.clone() })
}

fn translate_range(q: &RangeQuery, map: &FieldMap, fuzzy: bool) -> (r: Result<Plan, DbError>)
    ensures
        translates(r, plan_of(Query::Range(*q)@, map@, fuzzy)),
{
    match known_field(map, q.field.as_str()) {
        Ok(field) => Ok(
            Plan::Range { field, name: q.field.clone(), gte: q.gte, lte: q.lte },
        ),
        Err(e) => Err(e),
    }
}

fn translate_bool(q: &BoolQuery, map: &FieldMap, fuzzy: bool) -> (r: Result<Plan, DbError>)
    ensures
        translates(r, plan_of(Query::Bool(*q)@, map@, fuzzy)),
    decreases q,
{
    proof {
        lemma_bool_view(*q);
    }
    let mut clauses: Vec<(Occur, Plan)> = Vec::new();
    assert(clause_views(clauses@) =~= Seq::empty());
    match add_clauses(&mut clauses, &q.must, Occur::Must, map, fuzzy) {
        Ok(_) => {},
        Err(e) => {
            return Err(e);
        },
    }
    match add_clauses(&mut clauses, &q.should, Occur::Should, map, fuzzy) {
        Ok(_) => {},
        Err(e) => {
            return Err(e);
        },
    }
    match add_clauses(&mut clauses, &q.must_not, Occur::MustNot, map, fuzzy) {
        Ok(_) => {},
        Err(e) => {
            return Err(e);
        },
    }
    let ghost before = clause_views(clauses@);
    if q.must.len() == 0 && q.should.len() == 0 && q.must_not.len() > 0 {
        clauses.push((Occur::Must, Plan::All));
        assert(clause_views(clauses@) =~= before + seq![(Occur::Must, PlanView::All)]);
    } else {
        assert(clause_views(clauses@) =~= before + Seq::empty());
    }
    proof {
        let a = clauses_of(query_views(q.must@), Occur::Must, map@, fuzzy);
        let b = clauses_of(query_views(q.should@), Occur::Should, map@, fuzzy);
        let c = clauses_of(query_views(q.must_not@), Occur::MustNot, map@, fuzzy);
        assert(before =~= a->Ok_0 + b->Ok_0 + c->Ok_0);
        lemma_bool_plan(clauses);
    }
    Ok(Plan::Bool(clauses))
}

fn add_clauses(
    clauses: &mut Vec<(Occur, Plan)>,
    queries: &Vec<Query>,
    occur: Occur,
    map: &FieldMap,
    fuzzy: bool,
) -> (r: Result<(), DbError>)
    ensures
        match (r, clauses_of(query_views(queries@), occur, map@, fuzzy)) {
            (Ok(_), Ok(more)) => clause_views(final(clauses)@) == clause_views(old(clauses)@)
                + more,
            (Err(DbError::InvalidInput(m)), Err(text)) => m@ == text,
            _ => false,
        },
    decreases queries,
{
    let ghost all = query_views(queries@);
    assert(clause_views(clauses@) =~= clause_views(old(clauses)@) + Seq::empty());
    let mut i: usize = 0;
    while i < queries.len()
        invariant
            i <= queries@.len(),
            all == query_views(queries@),
            clauses_of(all.take(i as int), occur, map@, fuzzy) is Ok,
            clause_views(clauses@) == clause_views(old(clauses)@) + clauses_of(
                all.take(i as int),
                occur,
                map@,
                fuzzy,
            )->Ok_0,
        decreases queries@.len() - i,
    {
        proof {
            assert(all.take(i + 1).drop_last() =~= all.take(i as int));
            assert(all.take(i + 1)[i as int] == queries@[i as int]@);
        }
        match translate_query(&queries[i], map, fuzzy) {
            Ok(plan) => {
                let ghost before = clauses@;
                clauses.push((occur, plan));
                assert(clause_views(clauses@) =~= clause_views(before).push((occur, plan@)));
            },
            Err(e) => {
                proof {
                    lemma_first_error(all, i + 1, occur, map@, fuzzy);
                }
                return Err(e);
            },
        }
        i = i + 1;
    }
    assert(all.take(i as int) =~= all);
    Ok(())
}

proof fn lemma_first_error(
    queries: Seq<QueryView>,
    n: int,
    occur: Occur,
    map: Map<Seq<char>, u32>,
    fuzzy: bool,
)
    requires
        0 <= n <= queries.len(),
        clauses_of(queries.take(n), occur, map, fuzzy) is Err,
    ensures
        clauses_of(queries, occur, map, fuzzy) == clauses_of(queries.take(n), occur, map, fuzzy),
    decreases queries.len(),
{
    if n < queries.len() {
        assert(queries.drop_last().take(n) =~= queries.take(n));
        lemma_first_error(queries.drop_last(), n, occur, map, fuzzy);
    } else {
        assert(queries.take(n) =~= queries);
    }
}

/// The plan of a query.  A field that the schema does not know is an error; the first
/// one is told.  Where `fuzzy` is set, the words of a text may say how many typing
/// errors they allow, and terms may have wildcards.  Identifiers are always exact.
pub fn translate_query(query: &Query, map: &FieldMap, fuzzy: bool) -> (r: Result<Plan, DbError>)
    ensures
        translates(r, plan_of(query@, map@, fuzzy)),
    decreases query,
{
    match query {
        Query::FullText(q) => translate_full_text(q, map, fuzzy),
        Query::Term(q) => translate_term(q, map, fuzzy),
        Query::Range(q) => translate_range(q, map, fuzzy),
        Query::Bool(q) => translate_bool(q, map, fuzzy),
    }
}

// ---------------------------------------------------------------------------
// Laws
// ---------------------------------------------------------------------------

/// Some field that the query names is not in the schema.
pub open spec fn names_unknown_field(query: QueryView, map: Map<Seq<char>, u32>) -> bool
    decreases query,
{
    match query {
        QueryView::FullText { field, .. } => !map.contains_key(field),
        QueryView::Term { field, .. } => !map.contains_key(field),
        QueryView::Range { field, .. } => !map.contains_key(field),
        QueryView::Bool { must, should, must_not } => {
            ||| exists|i: int|
                0 <= i < must.len() && names_unknown_field(#[trigger] must[i], map)
            ||| exists|i: int|
                0 <= i < should.len() && names_unknown_field(#[trigger] should[i], map)
            ||| exists|i: int|
                0 <= i < must_not.len() && names_unknown_field(#[trigger] must_not[i], map)
        },
    }
}

/// A query has a plan exactly where the schema knows every field that it names.
pub proof fn known_fields_make_a_plan(query: QueryView, map: Map<Seq<char>, u32>, fuzzy: bool)
    ensures
        plan_of(query, map, fuzzy) is Ok <==> !names_unknown_field(query, map),
    decreases query,
{
    if let QueryView::Bool { must, should, must_not } = query {
        lemma_known_clauses(must, Occur::Must, map, fuzzy);
        lemma_known_clauses(should, Occur::Should, map, fuzzy);
        lemma_known_clauses(must_not, Occur::MustNot, map, fuzzy);
    }
}

proof fn lemma_known_clauses(
    queries: Seq<QueryView>,
    occur: Occur,
    map: Map<Seq<char>, u32>,
    fuzzy: bool,
)
    ensures
        clauses_of(queries, occur, map, fuzzy) is Ok <==> !exists|i: int|
            0 <= i < queries.len() && names_unknown_field(#[trigger] queries[i], map),
        clauses_of(queries, occur, map, fuzzy) is Ok ==> clauses_of(
            queries,
            occur,
            map,
            fuzzy,
        )->Ok_0.len() == queries.len(),
    decreases queries,
{
    if queries.len() > 0 {
        let front = queries.drop_last();
        lemma_known_clauses(front, occur, map, fuzzy);
        known_fields_make_a_plan(queries[queries.len() - 1], map, fuzzy);
        assert forall|i: int| 0 <= i < front.len() implies front[i] == queries[i] by {}
        if exists|i: int| 0 <= i < front.len() && names_unknown_field(#[trigger] front[i], map) {
            let i = choose|i: int|
                0 <= i < front.len() && names_unknown_field(#[trigger] front[i], map);
            assert(names_unknown_field(queries[i], map));
        }
        if exists|i: int|
            0 <= i < queries.len() && names_unknown_field(#[trigger] queries[i], map) {
            let i = choose|i: int|
                0 <= i < queries.len() && names_unknown_field(#[trigger] queries[i], map);
            if i < front.len() {
                assert(names_unknown_field(front[i], map));
            }
        }
    }
}

/// A combination of clauses that only exclude is given something to exclude from.
pub proof fn exclusions_have_a_base(
    must_not: Seq<QueryView>,
    map: Map<Seq<char>, u32>,
    fuzzy: bool,
)
    requires
        must_not.len() > 0,
    ensures
        plan_of(
            (QueryView::Bool { must: Seq::empty(), should: Seq::empty(), must_not }),
            map,
            fuzzy,
        ) matches Ok(PlanView::Bool(clauses)) ==> clauses.last() == (Occur::Must, PlanView::All),
{
}

/// A plan says of its parts what it holds of them.
pub proof fn plans_show_what_they_hold(
    field: u32,
    text: String,
    conjunction: bool,
    fuzzy: Option<u8>,
    gte: Option<Number>,
    lte: Option<Number>,
    clauses: Vec<(Occur, Plan)>,
    i: int,
)
    ensures
        (Plan::Words { field, text, conjunction, fuzzy })@ == (PlanView::Words {
            field,
            text: text@,
            conjunction,
            fuzzy,
        }),
        (Plan::Term { field, value: text })@ == (PlanView::Term { field, value: text@ }),
        (Plan::Pattern { field, regex: text })@ == (PlanView::Pattern { field, regex: text@ }),
        (Plan::Range { field, name: text, gte, lte })@ == (PlanView::Range {
            field,
            name: text@,
            gte,
            lte,
        }),
        Plan::All@ == PlanView::All,
        Plan::Bool(clauses)@ is Bool,
        Plan::Bool(clauses)@->Bool_0.len() == clauses@.len(),
        0 <= i < clauses@.len() ==> Plan::Bool(clauses)@->Bool_0[i] == (
            clauses@[i].0,
            clauses@[i].1@,
        ),
{
    lemma_bool_plan(clauses);
}

/// A translation gives a plan where one is expected, and that plan, and fails as invalid
/// input where an error is expected, with its text.
pub proof fn translations_are_exact(
    r: Result<Plan, DbError>,
    expected: Result<PlanView, Seq<char>>,
)
    requires
        translates(r, expected),
    ensures
        r is Ok <==> expected is Ok,
        r is Ok ==> r->Ok_0@ == expected->Ok_0,
        r is Err ==> (r->Err_0 matches DbError::InvalidInput(m) && m@ == expected->Err_0),
{
}

proof fn lemma_clauses(
    queries: Seq<QueryView>,
    occur: Occur,
    map: Map<Seq<char>, u32>,
    fuzzy: bool,
)
    requires
        clauses_of(queries, occur, map, fuzzy) is Ok,
    ensures
        clauses_of(queries, occur, map, fuzzy)->Ok_0.len() == queries.len(),
        forall|i: int|
            #![trigger queries[i]]
            #![trigger clauses_of(queries, occur, map, fuzzy)->Ok_0[i]]
            0 <= i < queries.len() ==> plan_of(queries[i], map, fuzzy) is Ok && clauses_of(
                queries,
                occur,
                map,
                fuzzy,
            )->Ok_0[i] == (occur, plan_of(queries[i], map, fuzzy)->Ok_0),
    decreases queries.len(),
{
    if queries.len() > 0 {
        let front = queries.drop_last();
        lemma_clauses(front, occur, map, fuzzy);
        let all = clauses_of(queries, occur, map, fuzzy)->Ok_0;
        let before = clauses_of(front, occur, map, fuzzy)->Ok_0;
        assert forall|i: int|
            #![trigger queries[i]]
            #![trigger all[i]]
            0 <= i < queries.len() implies plan_of(queries[i], map, fuzzy) is Ok && all[i] == (
            occur,
            plan_of(queries[i], map, fuzzy)->Ok_0,
        ) by {
            if i < front.len() {
                assert(front[i] == queries[i]);
                assert(all[i] == before[i]);
            }
        }
    }
}

/// The plan of a combination has one clause for each of its queries, in the order of
/// `must`, `should` and `must_not`: each with the plan of its query, and bearing on the
/// result as its list says.  Only where all clauses exclude is there one more, which every
/// document meets.
pub proof fn combinations_keep_their_clauses(
    must: Seq<QueryView>,
    should: Seq<QueryView>,
    must_not: Seq<QueryView>,
    map: Map<Seq<char>, u32>,
    fuzzy: bool,
)
    requires
        !names_unknown_field((QueryView::Bool { must, should, must_not }), map),
    ensures
        plan_of((QueryView::Bool { must, should, must_not }), map, fuzzy) matches Ok(
            PlanView::Bool(clauses),
        ) && {
            let a = must.len() as int;
            let b = should.len() as int;
            let c = must_not.len() as int;
            &&& clauses.len() == if a == 0 && b == 0 && c > 0 {
                c + 1
            } else {
                a + b + c
            }
            &&& forall|i: int|
                0 <= i < a ==> (#[trigger] clauses[i]).0 == Occur::Must && plan_of(
                    must[i],
                    map,
                    fuzzy,
                ) == Ok::<PlanView, Seq<char>>(clauses[i].1)
            &&& forall|i: int|
                a <= i < a + b ==> (#[trigger] clauses[i]).0 == Occur::Should && plan_of(
                    should[i - a],
                    map,
                    fuzzy,
                ) == Ok::<PlanView, Seq<char>>(clauses[i].1)
            &&& forall|i: int|
                a + b <= i < a + b + c ==> (#[trigger] clauses[i]).0 == Occur::MustNot && plan_of(
                    must_not[i - a - b],
                    map,
                    fuzzy,
                ) == Ok::<PlanView, Seq<char>>(clauses[i].1)
            &&& clauses.len() > a + b + c ==> clauses[a + b + c] == (Occur::Must, PlanView::All)
        },
{
    known_fields_make_a_plan(QueryView::Bool { must, should, must_not }, map, fuzzy);
    lemma_clauses(must, Occur::Must, map, fuzzy);
    lemma_clauses(should, Occur::Should, map, fuzzy);
    lemma_clauses(must_not, Occur::MustNot, map, fuzzy);
}

/// A document meets a plan, given the simple plans that it meets.  A combination is met
/// where every clause that has to match does, none that must not match does, and, where
/// no clause has to match, some clause of those that may match does.
pub open spec fn plan_met(plan: PlanView, meets: spec_fn(PlanView) -> bool) -> bool
    decreases plan,
{
    match plan {
        PlanView::Bool(clauses) => {
            &&& forall|i: int|
                0 <= i < clauses.len() && (#[trigger] clauses[i]).0 == Occur::Must ==> plan_met(
                    clauses[i].1,
                    meets,
                )
            &&& forall|i: int|
                0 <= i < clauses.len() && (#[trigger] clauses[i]).0 == Occur::MustNot
                    ==> !plan_met(clauses[i].1, meets)
            &&& {
                ||| exists|i: int| 0 <= i < clauses.len() && (#[trigger] clauses[i]).0 == Occur::Must
                ||| exists|i: int|
                    0 <= i < clauses.len() && (#[trigger] clauses[i]).0 == Occur::Should
                        && plan_met(clauses[i].1, meets)
            }
        },
        PlanView::All => true,
        _ => meets(plan),
    }
}

/// A document meets a query, given the simple queries that it meets: all of `must`, none of
/// `must_not`, and, where `must` is empty, at least one of `should` if there are any.  A
/// combination of nothing is met by no document.
pub open spec fn query_met(query: QueryView, meets: spec_fn(QueryView) -> bool) -> bool
    decreases query,
{
    match query {
        QueryView::Bool { must, should, must_not } => {
            &&& forall|i: int| 0 <= i < must.len() ==> query_met(#[trigger] must[i], meets)
            &&& forall|i: int|
                0 <= i < must_not.len() ==> !query_met(#[trigger] must_not[i], meets)
            &&& must.len() == 0 && should.len() > 0 ==> exists|i: int|
                0 <= i < should.len() && query_met(#[trigger] should[i], meets)
            &&& must.len() + should.len() + must_not.len() > 0
        },
        _ => meets(query),
    }
}

/// A document meets the plan of a query exactly where it meets the query.
pub proof fn plans_find_what_queries_ask_for(
    query: QueryView,
    map: Map<Seq<char>, u32>,
    fuzzy: bool,
    plan_meets: spec_fn(PlanView) -> bool,
    query_meets: spec_fn(QueryView) -> bool,
)
    requires
        !names_unknown_field(query, map),
        forall|q: QueryView|
            q !is Bool && !names_unknown_field(q, map) ==> #[trigger] query_meets(q)
                == plan_meets(plan_of(q, map, fuzzy)->Ok_0),
    ensures
        plan_met(plan_of(query, map, fuzzy)->Ok_0, plan_meets) == query_met(query, query_meets),
    decreases query,
{
    if let QueryView::Bool { must, should, must_not } = query {
        combinations_keep_their_clauses(must, should, must_not, map, fuzzy);
        let clauses = plan_of(query, map, fuzzy)->Ok_0->Bool_0;
        let a = must.len() as int;
        let b = should.len() as int;
        assert forall|i: int| 0 <= i < a implies query_met(#[trigger] must[i], query_meets)
            == plan_met(clauses[i].1, plan_meets) by {
            assert(clauses[i].0 == Occur::Must);
            plans_find_what_queries_ask_for(must[i], map, fuzzy, plan_meets, query_meets);
        }
        assert forall|i: int| 0 <= i < b implies query_met(#[trigger] should[i], query_meets)
            == plan_met(clauses[a + i].1, plan_meets) by {
            assert(clauses[a + i].0 == Occur::Should);
            plans_find_what_queries_ask_for(should[i], map, fuzzy, plan_meets, query_meets);
        }
        assert forall|i: int| 0 <= i < must_not.len() implies query_met(
            #[trigger] must_not[i],
            query_meets,
        ) == plan_met(clauses[a + b + i].1, plan_meets) by {
            assert(clauses[a + b + i].0 == Occur::MustNot);
            plans_find_what_queries_ask_for(must_not[i], map, fuzzy, plan_meets, query_meets);
        }
        lemma_combination_met(must, should, must_not, clauses, plan_meets, query_meets);
    }
}

proof fn lemma_combination_met(
    must: Seq<QueryView>,
    should: Seq<QueryView>,
    must_not: Seq<QueryView>,
    clauses: Seq<(Occur, PlanView)>,
    plan_meets: spec_fn(PlanView) -> bool,
    query_meets: spec_fn(QueryView) -> bool,
)
    requires
        ({
            let a = must.len() as int;
            let b = should.len() as int;
            let c = must_not.len() as int;
            &&& clauses.len() == if a == 0 && b == 0 && c > 0 {
                c + 1
            } else {
                a + b + c
            }
            &&& forall|i: int| 0 <= i < a ==> (#[trigger] clauses[i]).0 == Occur::Must
            &&& forall|i: int| a <= i < a + b ==> (#[trigger] clauses[i]).0 == Occur::Should
            &&& forall|i: int|
                a + b <= i < a + b + c ==> (#[trigger] clauses[i]).0 == Occur::MustNot
            &&& clauses.len() > a + b + c ==> clauses[a + b + c] == (Occur::Must, PlanView::All)
            &&& forall|i: int|
                0 <= i < a ==> query_met(#[trigger] must[i], query_meets) == plan_met(
                    clauses[i].1,
                    plan_meets,
                )
            &&& forall|i: int|
                0 <= i < b ==> query_met(#[trigger] should[i], query_meets) == plan_met(
                    clauses[a + i].1,
                    plan_meets,
                )
            &&& forall|i: int|
                0 <= i < c ==> query_met(#[trigger] must_not[i], query_meets) == plan_met(
                    clauses[a + b + i].1,
                    plan_meets,
                )
        }),
    ensures
        plan_met(PlanView::Bool(clauses), plan_meets) == query_met(
            (QueryView::Bool { must, should, must_not }),
            query_meets,
        ),
{
    let a = must.len() as int;
    let b = should.len() as int;
    let c = must_not.len() as int;
    let left = plan_met(PlanView::Bool(clauses), plan_meets);
    let right = query_met(QueryView::Bool { must, should, must_not }, query_meets);
    if left {
        assert forall|i: int| 0 <= i < a implies query_met(#[trigger] must[i], query_meets) by {
            assert(clauses[i].0 == Occur::Must);
        }
        assert forall|i: int| 0 <= i < c implies !query_met(
            #[trigger] must_not[i],
            query_meets,
        ) by {
            assert(clauses[a + b + i].0 == Occur::MustNot);
        }
        if a == 0 && b > 0 {
            let i = choose|i: int|
                0 <= i < clauses.len() && (#[trigger] clauses[i]).0 == Occur::Should && plan_met(
                    clauses[i].1,
                    plan_meets,
                );
            assert(query_met(should[i], query_meets));
        }
        assert(right);
    }
    if right {
        assert forall|i: int|
            0 <= i < clauses.len() && (#[trigger] clauses[i]).0 == Occur::Must implies plan_met(
            clauses[i].1,
            plan_meets,
        ) by {
            if i < a {
                assert(query_met(must[i], query_meets));
            }
        }
        assert forall|i: int|
            0 <= i < clauses.len() && (#[trigger] clauses[i]).0 == Occur::MustNot implies !plan_met(
            clauses[i].1,
            plan_meets,
        ) by {
            assert(!query_met(must_not[i - a - b], query_meets));
        }
        if a > 0 {
            assert(clauses[0].0 == Occur::Must);
        } else if b > 0 {
            let i = choose|i: int|
                0 <= i < should.len() && query_met(#[trigger] should[i], query_meets);
            assert(clauses[a + i].0 == Occur::Should);
        } else {
            assert(clauses[c].0 == Occur::Must);
        }
        assert(left);
    }
}

/// A simple query asks of the field that it names, by its number, for what it says: the
/// words, all of them or any; the term; or the numbers between its bounds, each of which
/// counts by itself.
pub proof fn simple_queries_keep_what_they_ask_for(
    field: Seq<char>,
    said: Seq<char>,
    operator: Operator,
    gte: Option<Number>,
    lte: Option<Number>,
    map: Map<Seq<char>, u32>,
    fuzzy: bool,
)
    requires
        map.contains_key(field),
    ensures
        plan_of((QueryView::FullText { field, query: said, operator }), map, fuzzy) matches Ok(
            PlanView::Words { field: n, text, conjunction, fuzzy: distance },
        ) && n == map[field] && (conjunction <==> operator == Operator::And) && (!fuzzy
            || !said.contains('~') ==> text == said && distance is None),
        plan_of((QueryView::Range { field, gte, lte }), map, fuzzy) == Ok::<PlanView, Seq<char>>(
            (PlanView::Range { field: map[field], name: field, gte, lte }),
        ),
        !fuzzy || field == "_id"@ || !(said.contains('*') || said.contains('?')) ==> plan_of(
            (QueryView::Term { field, value: said }),
            map,
            fuzzy,
        ) == Ok::<PlanView, Seq<char>>((PlanView::Term { field: map[field], value: said })),
        fuzzy && field != "_id"@ && (said.contains('*') || said.contains('?')) ==> plan_of(
            (QueryView::Term { field, value: said }),
            map,
            fuzzy,
        ) == Ok::<PlanView, Seq<char>>(
            (PlanView::Pattern { field: map[field], regex: pattern_regex(said) }),
        ),
{
    if !said.contains('~') {
        texts_without_marks_stay(said);
    }
    if has_wildcards(said) {
        let k = choose|k: int|
            0 <= k < said.len() && (#[trigger] said[k] == '*' || said[k] == '?');
        assert(said.contains(said[k]));
    }
    if said.contains('*') {
        let k = choose|k: int| 0 <= k < said.len() && said[k] == '*';
        assert(said[k] == '*');
    }
    if said.contains('?') {
        let k = choose|k: int| 0 <= k < said.len() && said[k] == '?';
        assert(said[k] == '?');
    }
}

/// A simple query on a field that the schema does not know fails, and the error names the
/// field.
pub proof fn unknown_fields_are_named(
    field: Seq<char>,
    said: Seq<char>,
    operator: Operator,
    gte: Option<Number>,
    lte: Option<Number>,
    map: Map<Seq<char>, u32>,
    fuzzy: bool,
)
    requires
        !map.contains_key(field),
    ensures
        ({
            let error = Err::<PlanView, Seq<char>>("field '"@ + field + "' not in schema"@);
            &&& plan_of((QueryView::FullText { field, query: said, operator }), map, fuzzy)
                == error
            &&& plan_of((QueryView::Term { field, value: said }), map, fuzzy) == error
            &&& plan_of((QueryView::Range { field, gte, lte }), map, fuzzy) == error
        }),
{
}

proof fn lemma_error_of_clauses(
    queries: Seq<QueryView>,
    k: int,
    occur: Occur,
    map: Map<Seq<char>, u32>,
    fuzzy: bool,
)
    requires
        0 <= k < queries.len(),
        names_unknown_field(queries[k], map),
        forall|i: int| 0 <= i < k ==> !names_unknown_field(#[trigger] queries[i], map),
    ensures
        clauses_of(queries, occur, map, fuzzy) is Err,
        clauses_of(queries, occur, map, fuzzy)->Err_0 == plan_of(queries[k], map, fuzzy)->Err_0,
    decreases queries.len(),
{
    let front = queries.drop_last();
    known_fields_make_a_plan(queries[k], map, fuzzy);
    if k < front.len() {
        assert(front[k] == queries[k]);
        assert forall|i: int| 0 <= i < k implies !names_unknown_field(#[trigger] front[i], map) by {
            assert(front[i] == queries[i]);
        }
        lemma_error_of_clauses(front, k, occur, map, fuzzy);
    } else {
        lemma_known_clauses(front, occur, map, fuzzy);
        assert(!exists|i: int|
            0 <= i < front.len() && names_unknown_field(#[trigger] front[i], map)) by {
            assert forall|i: int| 0 <= i < front.len() implies !names_unknown_field(
                #[trigger] front[i],
                map,
            ) by {
                assert(front[i] == queries[i]);
            }
        }
    }
}

/// Of the errors of a combination the first is told: that of the first query, in the order
/// of `must`, `should` and `must_not`, that names a field which the schema does not know.
pub proof fn the_first_unknown_field_is_told(
    must: Seq<QueryView>,
    should: Seq<QueryView>,
    must_not: Seq<QueryView>,
    map: Map<Seq<char>, u32>,
    fuzzy: bool,
    k: int,
)
    requires
        0 <= k < (must + should + must_not).len(),
        names_unknown_field((must + should + must_not)[k], map),
        forall|i: int|
            0 <= i < k ==> !names_unknown_field(#[trigger] (must + should + must_not)[i], map),
    ensures
        ({
            let plan = plan_of((QueryView::Bool { must, should, must_not }), map, fuzzy);
            &&& plan is Err
            &&& plan->Err_0 == plan_of((must + should + must_not)[k], map, fuzzy)->Err_0
        }),
{
    let all = must + should + must_not;
    let a = must.len() as int;
    let b = should.len() as int;
    assert forall|i: int| 0 <= i < k && i < a implies !names_unknown_field(
        #[trigger] must[i],
        map,
    ) by {
        assert(all[i] == must[i]);
    }
    assert forall|i: int| 0 <= i < k - a && i < b implies !names_unknown_field(
        #[trigger] should[i],
        map,
    ) by {
        assert(all[a + i] == should[i]);
    }
    assert forall|i: int| 0 <= i < k - a - b implies !names_unknown_field(
        #[trigger] must_not[i],
        map,
    ) by {
        assert(all[a + b + i] == must_not[i]);
    }
    if k < a {
        assert(all[k] == must[k]);
        lemma_error_of_clauses(must, k, Occur::Must, map, fuzzy);
    } else {
        lemma_known_clauses(must, Occur::Must, map, fuzzy);
        assert(clauses_of(must, Occur::Must, map, fuzzy) is Ok);
        if k < a + b {
            assert(all[k] == should[k - a]);
            lemma_error_of_clauses(should, k - a, Occur::Should, map, fuzzy);
        } else {
            lemma_known_clauses(should, Occur::Should, map, fuzzy);
            assert(clauses_of(should, Occur::Should, map, fuzzy) is Ok);
            assert(all[k] == must_not[k - a - b]);
            lemma_error_of_clauses(must_not, k - a - b, Occur::MustNot, map, fuzzy);
        }
    }
}

/// The first word that allows typing errors says how many, and where none does, none are
/// allowed.
pub proof fn the_first_mark_counts(words: Seq<Seq<char>>, k: int)
    requires
        0 <= k <= words.len(),
        forall|i: int| 0 <= i < k ==> fuzzy_word(#[trigger] words[i]) is None,
        k < words.len() ==> fuzzy_word(words[k]) is Some,
    ensures
        k < words.len() ==> first_distance(words) == fuzzy_word(words[k]),
        k == words.len() ==> first_distance(words) is None,
    decreases words.len(),
{
    if words.len() > 0 {
        let front = words.drop_last();
        assert forall|i: int| 0 <= i < k && i < front.len() implies fuzzy_word(
            #[trigger] front[i],
        ) is None by {
            assert(front[i] == words[i]);
        }
        if k < front.len() {
            assert(front[k] == words[k]);
            the_first_mark_counts(front, k);
        } else {
            the_first_mark_counts(front, front.len() as int);
        }
    }
}

/// A tilde and `1` or `2` behind a word allow so many typing errors and are no part of it;
/// a tilde with another number allows none.
pub proof fn marks_say_how_many(word: Seq<char>, n: nat)
    requires
        n <= u64::MAX,
    ensures
        ({
            let written = word + seq!['~'] + text::decimal(n);
            &&& fuzzy_word(written) == if n == 1 || n == 2 {
                Some(n)
            } else {
                None
            }
            &&& unmarked(written) == word
            &&& !word.contains('~') ==> cleaned(seq![written])[0] == word
        }),
{
    let digits = text::decimal(n);
    let written = word + seq!['~'] + digits;
    text::lemma_decimal(n);
    text::the_last_index_is_last(written, '~');
    assert(written[word.len() as int] == '~');
    assert(written.contains('~')) by {
        assert(written[word.len() as int] == '~');
    }
    let at = text::last_index(written, '~')->0;
    if at > word.len() {
        assert(text::is_digit(digits[at - word.len() - 1]));
    }
    assert(at == word.len());
    assert(written.skip(at + 1) =~= digits);
    assert(written.take(at) =~= word);
    assert(text::is_digit(digits[0]));
    text::digits_make_numbers(digits, '0', 255);
    text::digits_make_numbers(digits, '0', u64::MAX as nat);
    if !word.contains('~') {
        lemma_without_tildes(word);
    }
}

/// A text that no word of which allows typing errors, and that does not begin with such a
/// mark, is looked for as it is: so is every text without a tilde.
pub proof fn texts_without_marks_stay(query: Seq<char>)
    requires
        !query.contains('~'),
    ensures
        fuzzy_text(query) == (query, None::<u8>),
{
    let words = text::words(query);
    assert forall|i: int| 0 <= i < words.len() implies fuzzy_word(#[trigger] words[i]) is None by {
        text::words_are_solid(query, i);
        assert(!words[i].contains('~')) by {
            if words[i].contains('~') {
                let j = choose|j: int| 0 <= j < words[i].len() && words[i][j] == '~';
                assert(query.contains(text::words(query)[i][j]));
            }
        }
        lemma_no_last_tilde(words[i]);
    }
    the_first_mark_counts(words, words.len() as int);
    if query.len() > 0 {
        assert(query.contains(query[0]));
    }
}

/// A text that begins with a tilde, a number and a colon is looked for without them, with
/// so many typing errors where one or two are asked for.
pub proof fn leading_marks_say_how_many(n: nat, rest: Seq<char>)
    requires
        n <= 255,
    ensures
        fuzzy_text(seq!['~'] + text::decimal(n) + seq![':'] + rest) == (
            rest,
            if n == 1 {
                Some(1u8)
            } else if n == 2 {
                Some(2u8)
            } else {
                None
            },
        ),
{
    let digits = text::decimal(n);
    let query = seq!['~'] + digits + seq![':'] + rest;
    text::lemma_decimal(n);
    text::lemma_first_index(query, ':', 0);
    let colon = 1 + digits.len();
    assert(query[colon as int] == ':');
    assert forall|j: int| 0 <= j < colon implies query[j] != ':' by {
        if j > 0 {
            assert(query[j] == digits[j - 1]);
            assert(text::is_digit(digits[j - 1]));
        }
    }
    let first = text::first_index(query, ':', 0);
    assert(first == colon);
    assert(query.subrange(1, first) =~= digits);
    assert(query.skip(first + 1) =~= rest);
    assert(text::is_digit(digits[0]));
    text::digits_make_numbers(digits, '0', 255);
}

/// A marked text is looked for without its marks, word by word.
pub proof fn marked_texts_lose_their_marks(query: Seq<char>, k: int)
    requires
        marked_fuzzy(query) is None,
        0 <= k < text::words(query).len(),
        fuzzy_word(text::words(query)[k]) is Some,
        forall|i: int| 0 <= i < k ==> fuzzy_word(#[trigger] text::words(query)[i]) is None,
    ensures
        fuzzy_text(query).0 == text::joined(cleaned(text::words(query)), " "@),
        fuzzy_text(query).1 == Some(fuzzy_word(text::words(query)[k])->0 as u8),
        cleaned(text::words(query)).len() == text::words(query).len(),
{
    the_first_mark_counts(text::words(query), k);
}

/// A pattern is read character by character: a star stands for any characters, a question
/// mark for one, and every other character for itself, with a backslash before it where it
/// would mean something else.
pub proof fn patterns_are_read_by_character(a: Seq<char>, c: char, b: Seq<char>)
    ensures
        pattern_regex(a + seq![c] + b) == pattern_regex(a) + pattern_regex(seq![c])
            + pattern_regex(b),
        pattern_regex(Seq::empty()) == Seq::<char>::empty(),
        pattern_regex(seq!['*']) == "(?s:.*)"@,
        pattern_regex(seq!['?']) == "(?s:.)"@,
        "\\.+()|[]{}^$#&-~"@.contains(c) ==> pattern_regex(seq![c]) == seq!['\\', c],
        c != '*' && c != '?' && !"\\.+()|[]{}^$#&-~"@.contains(c) ==> pattern_regex(seq![c])
            == seq![c],
{
    reveal_strlit("\\.+()|[]{}^$#&-~");
    let specials = "\\.+()|[]{}^$#&-~"@;
    lemma_regex_of_sum(a + seq![c], b);
    lemma_regex_of_sum(a, seq![c]);
    assert(seq!['*'].drop_last() =~= Seq::<char>::empty());
    assert(seq!['?'].drop_last() =~= Seq::<char>::empty());
    assert(seq![c].drop_last() =~= Seq::<char>::empty());
    lemma_one_glyph('*');
    lemma_one_glyph('?');
    lemma_one_glyph(c);
    if specials.contains(c) {
        assert(is_special(c));
    }
    if is_special(c) {
        assert(specials[0] == '\\' && specials[1] == '.' && specials[2] == '+' && specials[3]
            == '(' && specials[4] == ')' && specials[5] == '|' && specials[6] == '['
            && specials[7] == ']' && specials[8] == '{' && specials[9] == '}' && specials[10]
            == '^' && specials[11] == '$' && specials[12] == '#' && specials[13] == '&'
            && specials[14] == '-' && specials[15] == '~');
        assert(specials.contains(c));
    }
}

proof fn lemma_one_glyph(c: char)
    ensures
        pattern_regex(seq![c]) == glyph(c),
{
    let none = Seq::<char>::empty();
    assert(seq![c].drop_last() =~= none);
    assert(pattern_regex(none) =~= none);
    assert(none + glyph(c) =~= glyph(c));
}

proof fn lemma_regex_of_sum(a: Seq<char>, b: Seq<char>)
    ensures
        pattern_regex(a + b) == pattern_regex(a) + pattern_regex(b),
    decreases b.len(),
{
    if b.len() == 0 {
        assert(a + b =~= a);
        assert(pattern_regex(a) + pattern_regex(b) =~= pattern_regex(a));
    } else {
        assert((a + b).drop_last() =~= a + b.drop_last());
        lemma_regex_of_sum(a, b.drop_last());
        assert(pattern_regex(a + b) =~= pattern_regex(a) + pattern_regex(b));
    }
}

} // verus!
