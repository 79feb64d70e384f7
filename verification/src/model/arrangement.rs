//! Search results in the order that a request asks for.
//!
//! Results are sorted by one criterion after the other; those that compare equal keep
//! their order.  A cursor drops everything up to the place that it stands for, and of
//! results that agree in a field only the first is kept.

use vstd::prelude::*;

use crate::model::document::{DocumentView, FieldValue, FieldValueView};
use crate::model::query::{
    Score, ScoredDocument, SearchOptions, SortClause, SortOrder, SortValue,
};
use crate::model::ranking::{page, paginate};
use crate::json::Number;
use crate::text;

verus! {

// ---------------------------------------------------------------------------
// Values
// ---------------------------------------------------------------------------

/// What a value counts for in an order.  Numbers and scores count by their place among
/// the numbers.
#[verifier::ext_equal]
pub enum KeyView {
    Missing,
    Flag(bool),
    Score(int),
    Number(int),
    Text(Seq<char>),
}

impl KeyView {
    /// Values of different kinds are ordered by their kinds.
    pub open spec fn kind(self) -> int {
        match self {
            KeyView::Missing => 0,
            KeyView::Flag(_) => 1,
            KeyView::Score(_) => 2,
            KeyView::Number(_) => 3,
            KeyView::Text(_) => 4,
        }
    }
}

/// The place of a number among the numbers: both zeros have the same, and what is no
/// number stands behind all numbers.
pub open spec fn number_place(n: Number) -> int {
    if !n.finite() && n.bits as int % 0x10_0000_0000_0000 != 0 {
        0x8000_0000_0000_0000
    } else if n.bits >= 0x8000_0000_0000_0000 {
        0x8000_0000_0000_0000 - n.bits
    } else {
        n.bits as int
    }
}

fn place_of_number(n: Number) -> (r: i128)
    ensures
        r == number_place(n),
{
    if !n.is_finite() && n.bits % 0x10_0000_0000_0000 != 0 {
        0x8000_0000_0000_0000i128
    } else if n.bits >= 0x8000_0000_0000_0000 {
        0x8000_0000_0000_0000i128 - n.bits as i128
    } else {
        n.bits as i128
    }
}

/// The place of a score among the scores, in the same way.
pub open spec fn score_place(s: Score) -> int {
    if s.nan() {
        0x8000_0000
    } else {
        s.rank()
    }
}

fn place_of_score(s: Score) -> (r: i64)
    ensures
        r == score_place(s),
{
    if s.is_nan() {
        0x8000_0000i64
    } else {
        s.rank_of()
    }
}

impl View for SortValue {
    type V = KeyView;

    open spec fn view(&self) -> KeyView {
        match self {
            SortValue::Missing => KeyView::Missing,
            SortValue::Flag(b) => KeyView::Flag(*b),
            SortValue::Score(s) => KeyView::Score(score_place(*s)),
            SortValue::Number(n) => KeyView::Number(number_place(*n)),
            SortValue::Text(s) => KeyView::Text(s@),
        }
    }
}

/// The values of a list.
pub open spec fn key_views(values: Seq<SortValue>) -> Seq<KeyView> {
    Seq::new(values.len(), |i: int| values[i]@)
}

/// `a` stands before `b` in ascending order.
pub open spec fn lower(a: KeyView, b: KeyView) -> bool {
    match (a, b) {
        (KeyView::Flag(x), KeyView::Flag(y)) => !x && y,
        (KeyView::Score(x), KeyView::Score(y)) => x < y,
        (KeyView::Number(x), KeyView::Number(y)) => x < y,
        (KeyView::Text(x), KeyView::Text(y)) => text::precedes(x, y),
        _ => a.kind() < b.kind(),
    }
}

fn kind_of(v: &SortValue) -> (k: u8)
    ensures
        k == v@.kind(),
{
    match v {
        SortValue::Missing => 0,
        SortValue::Flag(_) => 1,
        SortValue::Score(_) => 2,
        SortValue::Number(_) => 3,
        SortValue::Text(_) => 4,
    }
}

fn is_lower(a: &SortValue, b: &SortValue) -> (r: bool)
    ensures
        r == lower(a@, b@),
{
    match (a, b) {
        (SortValue::Flag(x), SortValue::Flag(y)) => !*x && *y,
        (SortValue::Score(x), SortValue::Score(y)) => place_of_score(*x) < place_of_score(*y),
        (SortValue::Number(x), SortValue::Number(y)) => place_of_number(*x) < place_of_number(*y),
        (SortValue::Text(x), SortValue::Text(y)) => text::comes_before(x.as_str(), y.as_str()),
        _ => kind_of(a) < kind_of(b),
    }
}

proof fn lemma_lower(a: KeyView, b: KeyView, c: KeyView)
    ensures
        !(lower(a, b) && lower(b, a)),
        !lower(a, b) && !lower(b, c) ==> !lower(a, c),
{
    match (a, b, c) {
        (KeyView::Text(x), KeyView::Text(y), KeyView::Text(z)) => {
            text::precedes_is_total(x, y);
            text::precedes_is_total(y, z);
            text::precedes_is_total(x, z);
            if !lower(a, b) && !lower(b, c) && lower(a, c) && x != y && y != z {
                text::precedes_is_transitive(z, y, x);
                text::precedes_is_total(z, x);
            }
        },
        (KeyView::Text(x), KeyView::Text(y), _) => {
            text::precedes_is_total(x, y);
        },
        _ => {},
    }
}

// ---------------------------------------------------------------------------
// Sorting
// ---------------------------------------------------------------------------

/// What a document counts for under a criterion: its score, or a field that is a text,
/// a number or a truth value.
pub open spec fn sort_key(doc: DocumentView, score: Score, field: Seq<char>) -> KeyView {
    if field == "_score"@ {
        KeyView::Score(score_place(score))
    } else if doc.fields.contains_key(field) {
        match doc.fields[field] {
            FieldValueView::Text(s) => KeyView::Text(s),
            FieldValueView::Number(n) => KeyView::Number(number_place(n)),
            FieldValueView::Boolean(b) => KeyView::Flag(b),
            FieldValueView::Array(_) => KeyView::Missing,
        }
    } else {
        KeyView::Missing
    }
}

fn sort_value(doc: &ScoredDocument, field: &str) -> (v: SortValue)
    ensures
        v@ == sort_key(doc.document@, doc.score, field@),
{
    if text::same(field, "_score") {
        return SortValue::Score(doc.score);
    }
    match doc.document.get_field(field) {
        Some(FieldValue::Text(s)) => SortValue::Text(s.clone()),
        Some(FieldValue::Number(n)) => SortValue::Number(*n),
        Some(FieldValue::Boolean(b)) => SortValue::Flag(*b),
        Some(FieldValue::Array(_)) => SortValue::Missing,
        None => SortValue::Missing,
    }
}

/// The orders of the criteria.
pub open spec fn orders(sort: Seq<SortClause>) -> Seq<SortOrder> {
    Seq::new(sort.len(), |i: int| sort[i].order)
}

/// The values of a document under all criteria.
pub open spec fn sort_keys(doc: DocumentView, score: Score, sort: Seq<SortClause>) -> Seq<KeyView> {
    Seq::new(sort.len(), |i: int| sort_key(doc, score, sort[i].field@))
}

/// `after` is `before` with the sort values of each document filled in.
pub open spec fn filled(
    before: Seq<ScoredDocument>,
    after: Seq<ScoredDocument>,
    sort: Seq<SortClause>,
) -> bool {
    &&& after.len() == before.len()
    &&& forall|i: int|
        0 <= i < after.len() ==> {
            &&& (#[trigger] after[i]).document == before[i].document
            &&& after[i].score == before[i].score
            &&& key_views(after[i].sort@) == sort_keys(
                before[i].document@,
                before[i].score,
                sort,
            )
        }
}

/// Fill in the sort values of every document, one for each criterion.
pub fn fill_sort_values(docs: Vec<ScoredDocument>, sort: &Vec<SortClause>) -> (out: Vec<
    ScoredDocument,
>)
    ensures
        filled(docs@, out@, sort@),
{
    let ghost before = docs@;
    let mut docs = docs;
    let mut i: usize = 0;
    while i < docs.len()
        invariant
            i <= docs@.len(),
            docs@.len() == before.len(),
            docs@.skip(i as int) == before.skip(i as int),
            filled(before.take(i as int), docs@.take(i as int), sort@),
        decreases docs@.len() - i,
    {
        let ghost prev = docs@;
        assert(docs@.skip(i as int)[0] == before.skip(i as int)[0]);
        let mut values: Vec<SortValue> = Vec::new();
        let mut k: usize = 0;
        while k < sort.len()
            invariant
                k <= sort@.len(),
                i < docs@.len(),
                values@.len() == k,
                forall|j: int|
                    0 <= j < k ==> (#[trigger] values@[j])@ == sort_key(
                        docs@[i as int].document@,
                        docs@[i as int].score,
                        sort@[j].field@,
                    ),
            decreases sort@.len() - k,
        {
            let v = sort_value(&docs[i], sort[k].field.as_str());
            values.push(v);
            k = k + 1;
        }
        assert(key_views(values@) =~= sort_keys(
            docs@[i as int].document@,
            docs@[i as int].score,
            sort@,
        ));
        let d = docs.remove(i);
        let new = ScoredDocument { document: d.document, score: d.score, sort: values };
        docs.insert(i, new);
        proof {
            assert(docs@ =~= prev.update(i as int, new));
            assert(docs@.skip(i + 1) =~= prev.skip(i as int).skip(1));
            assert(before.skip(i + 1) =~= before.skip(i as int).skip(1));
            assert forall|j: int| 0 <= j < i + 1 implies {
                &&& (#[trigger] docs@.take(i + 1)[j]).document == before.take(i + 1)[j].document
                &&& docs@.take(i + 1)[j].score == before.take(i + 1)[j].score
                &&& key_views(docs@.take(i + 1)[j].sort@) == sort_keys(
                    before.take(i + 1)[j].document@,
                    before.take(i + 1)[j].score,
                    sort@,
                )
            } by {
                if j < i {
                    assert(docs@.take(i + 1)[j] == prev.take(i as int)[j]);
                    assert(before.take(i + 1)[j] == before.take(i as int)[j]);
                }
            }
        }
        i = i + 1;
    }
    assert(docs@.take(i as int) =~= docs@);
    assert(before.take(i as int) =~= before);
    docs
}

/// The value at a position; none behind the last.
pub open spec fn key_at(keys: Seq<KeyView>, i: int) -> KeyView {
    if 0 <= i < keys.len() {
        keys[i]
    } else {
        KeyView::Missing
    }
}

/// `a` stands before `b`: by the first criterion, from `from` on, under which they
/// differ.
pub open spec fn stands_before(
    a: Seq<KeyView>,
    b: Seq<KeyView>,
    orders: Seq<SortOrder>,
    from: int,
) -> bool
    decreases orders.len() - from,
{
    if from < 0 || from >= orders.len() {
        false
    } else {
        let up = orders[from] == SortOrder::Asc;
        let x = if up {
            key_at(a, from)
        } else {
            key_at(b, from)
        };
        let y = if up {
            key_at(b, from)
        } else {
            key_at(a, from)
        };
        if lower(x, y) {
            true
        } else if lower(y, x) {
            false
        } else {
            stands_before(a, b, orders, from + 1)
        }
    }
}

proof fn lemma_before(
    a: Seq<KeyView>,
    b: Seq<KeyView>,
    c: Seq<KeyView>,
    orders: Seq<SortOrder>,
    from: int,
)
    requires
        0 <= from,
    ensures
        !(stands_before(a, b, orders, from) && stands_before(b, a, orders, from)),
        !stands_before(a, b, orders, from) && !stands_before(b, c, orders, from)
            ==> !stands_before(a, c, orders, from),
    decreases orders.len() - from,
{
    if from < orders.len() {
        let x = key_at(a, from);
        let y = key_at(b, from);
        let z = key_at(c, from);
        lemma_lower(x, y, z);
        lemma_lower(x, z, y);
        lemma_lower(y, x, z);
        lemma_lower(y, z, x);
        lemma_lower(z, x, y);
        lemma_lower(z, y, x);
        lemma_before(a, b, c, orders, from + 1);
    }
}

fn copy_value(v: &SortValue) -> (r: SortValue)
    ensures
        r@ == v@,
{
    match v {
        SortValue::Missing => SortValue::Missing,
        SortValue::Flag(b) => SortValue::Flag(*b),
        SortValue::Score(s) => SortValue::Score(*s),
        SortValue::Number(n) => SortValue::Number(*n),
        SortValue::Text(s) => SortValue::Text(s.clone()),
    }
}

/// A copy of the values.
pub fn copy_values(values: &Vec<SortValue>) -> (out: Vec<SortValue>)
    ensures
        key_views(out@) == key_views(values@),
{
    let mut out: Vec<SortValue> = Vec::new();
    let mut i: usize = 0;
    while i < values.len()
        invariant
            i <= values@.len(),
            out@.len() == i,
            forall|k: int| 0 <= k < i ==> (#[trigger] out@[k])@ == values@[k]@,
        decreases values@.len() - i,
    {
        out.push(copy_value(&values[i]));
        i = i + 1;
    }
    assert(key_views(out@) =~= key_views(values@));
    out
}

fn value_at(values: &Vec<SortValue>, i: usize) -> (v: SortValue)
    ensures
        v@ == key_at(key_views(values@), i as int),
{
    if i < values.len() {
        copy_value(&values[i])
    } else {
        SortValue::Missing
    }
}

fn is_before(a: &Vec<SortValue>, b: &Vec<SortValue>, sort: &Vec<SortClause>) -> (r: bool)
    ensures
        r == stands_before(key_views(a@), key_views(b@), orders(sort@), 0),
{
    let ghost x = key_views(a@);
    let ghost y = key_views(b@);
    let mut i: usize = 0;
    while i < sort.len()
        invariant
            i <= sort@.len(),
            x == key_views(a@),
            y == key_views(b@),
            stands_before(x, y, orders(sort@), 0) == stands_before(x, y, orders(sort@), i as int),
        decreases sort@.len() - i,
    {
        let v = value_at(a, i);
        let w = value_at(b, i);
        let up = match sort[i].order {
            SortOrder::Asc => true,
            SortOrder::Desc => false,
        };
        assert(orders(sort@)[i as int] == sort@[i as int].order);
        if up {
            if is_lower(&v, &w) {
                return true;
            }
            if is_lower(&w, &v) {
                return false;
            }
        } else {
            if is_lower(&w, &v) {
                return true;
            }
            if is_lower(&v, &w) {
                return false;
            }
        }
        i = i + 1;
    }
    false
}

/// The sort values of a document.
pub open spec fn keys_of(doc: ScoredDocument) -> Seq<KeyView> {
    key_views(doc.sort@)
}

/// Where `x` belongs among the first `n` documents of a list in order: in front of those
/// that it stands before.
pub open spec fn place(s: Seq<ScoredDocument>, n: int, x: ScoredDocument, orders: Seq<SortOrder>) -> int
    decreases n,
{
    if n <= 0 {
        0
    } else if stands_before(keys_of(x), keys_of(s[n - 1]), orders, 0) {
        place(s, n - 1, x, orders)
    } else {
        n
    }
}

/// The documents in the order of their sort values; equal ones keep their order.
pub open spec fn arranged(s: Seq<ScoredDocument>, orders: Seq<SortOrder>) -> Seq<ScoredDocument>
    decreases s.len(),
{
    if s.len() == 0 {
        s
    } else {
        let front = arranged(s.drop_last(), orders);
        front.insert(place(front, front.len() as int, s.last(), orders), s.last())
    }
}

/// No document stands in front of one that belongs before it.
pub open spec fn is_arranged(s: Seq<ScoredDocument>, orders: Seq<SortOrder>) -> bool {
    forall|i: int, j: int|
        #![trigger s[i], s[j]]
        0 <= i < j < s.len() ==> !stands_before(keys_of(s[j]), keys_of(s[i]), orders, 0)
}

proof fn lemma_place(s: Seq<ScoredDocument>, n: int, x: ScoredDocument, orders: Seq<SortOrder>)
    requires
        0 <= n <= s.len(),
    ensures
        0 <= place(s, n, x, orders) <= n,
        place(s, n, x, orders) > 0 ==> !stands_before(
            keys_of(x),
            keys_of(s[place(s, n, x, orders) - 1]),
            orders,
            0,
        ),
        forall|j: int|
            place(s, n, x, orders) <= j < n ==> stands_before(
                keys_of(x),
                keys_of(#[trigger] s[j]),
                orders,
                0,
            ),
    decreases n,
{
    if n > 0 && stands_before(keys_of(x), keys_of(s[n - 1]), orders, 0) {
        lemma_place(s, n - 1, x, orders);
    }
}

/// Arranging puts the documents in order, and neither adds nor drops any.
pub proof fn arranging_sorts(s: Seq<ScoredDocument>, orders: Seq<SortOrder>)
    ensures
        is_arranged(arranged(s, orders), orders),
        arranged(s, orders).len() == s.len(),
        arranged(s, orders).to_multiset() == s.to_multiset(),
    decreases s.len(),
{
    if s.len() > 0 {
        let front = arranged(s.drop_last(), orders);
        let x = s.last();
        arranging_sorts(s.drop_last(), orders);
        let p = place(front, front.len() as int, x, orders);
        lemma_place(front, front.len() as int, x, orders);
        let after = front.insert(p, x);
        assert forall|i: int, j: int|
            #![trigger after[i], after[j]]
            0 <= i < j < after.len() implies !stands_before(
            keys_of(after[j]),
            keys_of(after[i]),
            orders,
            0,
        ) by {
            let a = if i < p {
                i
            } else {
                i - 1
            };
            let b = if j < p {
                j
            } else {
                j - 1
            };
            if i != p && j != p {
                assert(!stands_before(keys_of(front[b]), keys_of(front[a]), orders, 0));
            } else if i == p {
                assert(stands_before(keys_of(x), keys_of(front[b]), orders, 0));
                lemma_before(keys_of(x), keys_of(front[b]), keys_of(x), orders, 0);
            } else {
                if a < p - 1 {
                    assert(!stands_before(keys_of(front[p - 1]), keys_of(front[a]), orders, 0));
                }
                lemma_before(keys_of(x), keys_of(front[p - 1]), keys_of(front[a]), orders, 0);
            }
        }
        vstd::seq_lib::to_multiset_insert(front, p, x);
        assert(s =~= s.drop_last().push(x));
        s.drop_last().to_multiset_ensures();
        assert(s.to_multiset() =~= s.drop_last().to_multiset().insert(x));
    }
}

/// Without criteria nothing moves.
pub proof fn no_criteria_keep_the_order(s: Seq<ScoredDocument>)
    ensures
        arranged(s, Seq::empty()) == s,
    decreases s.len(),
{
    if s.len() > 0 {
        no_criteria_keep_the_order(s.drop_last());
        assert(s.drop_last().insert(s.len() - 1, s.last()) =~= s);
    }
}

/// Put the documents in the order of their sort values.
pub fn arrange(docs: &mut Vec<ScoredDocument>, sort: &Vec<SortClause>)
    ensures
        final(docs)@ == arranged(old(docs)@, orders(sort@)),
{
    let ghost before = docs@;
    let ghost os = orders(sort@);
    let mut n: usize = 0;
    assert(before.take(0) =~= Seq::<ScoredDocument>::empty());
    assert(arranged(before.take(0), os) + before.skip(0) =~= before);
    while n < docs.len()
        invariant
            n <= docs@.len(),
            os == orders(sort@),
            docs@.len() == before.len(),
            docs@ == arranged(before.take(n as int), os) + before.skip(n as int),
            arranged(before.take(n as int), os).len() == n,
        decreases docs@.len() - n,
    {
        let ghost front = arranged(before.take(n as int), os);
        let x = docs.remove(n);
        assert(x == before[n as int]);
        assert(docs@ =~= front + before.skip(n + 1));
        let mut p: usize = n;
        while p > 0 && is_before(&x.sort, &docs[p - 1].sort, sort)
            invariant
                p <= n <= docs@.len(),
                os == orders(sort@),
                front.len() == n,
                docs@ == front + before.skip(n + 1),
                place(front, n as int, x, os) == place(front, p as int, x, os),
            decreases p,
        {
            assert(docs@[p - 1] == front[p - 1]);
            p = p - 1;
        }
        proof {
            if p > 0 {
                assert(docs@[p - 1] == front[p - 1]);
            }
            assert(place(front, p as int, x, os) == p);
            let next = before.take(n + 1);
            assert(next.drop_last() =~= before.take(n as int));
            assert(next.last() == x);
        }
        let ghost mid = docs@;
        docs.insert(p, x);
        assert(mid.insert(p as int, x) =~= front.insert(p as int, x) + before.skip(n + 1));
        n = n + 1;
    }
    assert(before.take(n as int) =~= before);
    assert(docs@ =~= arranged(before, os));
}

// ---------------------------------------------------------------------------
// Cursors
// ---------------------------------------------------------------------------

/// The documents that stand behind the cursor, in their order.  Without criteria a cursor
/// stands for no place, and every document is behind it.
pub open spec fn behind(
    s: Seq<ScoredDocument>,
    cursor: Option<Seq<KeyView>>,
    orders: Seq<SortOrder>,
) -> Seq<ScoredDocument>
    decreases s.len(),
{
    if s.len() == 0 {
        s
    } else {
        let front = behind(s.drop_last(), cursor, orders);
        if cursor is None || orders.len() == 0 || stands_before(
            cursor->0,
            keys_of(s.last()),
            orders,
            0,
        ) {
            front.push(s.last())
        } else {
            front
        }
    }
}

/// The values of a cursor.
pub open spec fn cursor_keys(cursor: Option<Vec<SortValue>>) -> Option<Seq<KeyView>> {
    match cursor {
        Some(values) => Some(key_views(values@)),
        None => None,
    }
}

/// Every document behind a cursor follows it, and none that follows it is dropped.
pub proof fn a_cursor_keeps_what_follows(
    s: Seq<ScoredDocument>,
    cursor: Seq<KeyView>,
    orders: Seq<SortOrder>,
    d: ScoredDocument,
)
    requires
        orders.len() > 0,
    ensures
        behind(s, Some(cursor), orders).contains(d) <==> s.contains(d) && stands_before(
            cursor,
            keys_of(d),
            orders,
            0,
        ),
    decreases s.len(),
{
    if s.len() > 0 {
        let front = behind(s.drop_last(), Some(cursor), orders);
        let x = s.last();
        a_cursor_keeps_what_follows(s.drop_last(), cursor, orders, d);
        assert(s =~= s.drop_last().push(x));
        lemma_contains_push(s.drop_last(), x, d);
        lemma_contains_push(front, x, d);
    }
}

proof fn lemma_contains_push(s: Seq<ScoredDocument>, x: ScoredDocument, d: ScoredDocument)
    ensures
        s.push(x).contains(d) <==> s.contains(d) || x == d,
{
    let after = s.push(x);
    if s.contains(d) {
        let i = choose|i: int| 0 <= i < s.len() && s[i] == d;
        assert(after[i] == d);
    }
    if x == d {
        assert(after[s.len() as int] == d);
    }
    if after.contains(d) {
        let i = choose|i: int| 0 <= i < after.len() && after[i] == d;
        if i < s.len() {
            assert(s[i] == d);
        }
    }
}

/// Drop every document up to the cursor.
pub fn drop_up_to(
    docs: &mut Vec<ScoredDocument>,
    cursor: &Option<Vec<SortValue>>,
    sort: &Vec<SortClause>,
)
    ensures
        final(docs)@ == behind(old(docs)@, cursor_keys(*cursor), orders(sort@)),
{
    let ghost before = docs@;
    let ghost os = orders(sort@);
    let ghost keys = cursor_keys(*cursor);
    let mut i: usize = 0;
    let ghost mut n: int = 0;
    assert(before.take(0) =~= Seq::<ScoredDocument>::empty());
    assert(behind(before.take(0), keys, os) + before.skip(0) =~= before);
    while i < docs.len()
        invariant
            0 <= n <= before.len(),
            os == orders(sort@),
            keys == cursor_keys(*cursor),
            docs@ == behind(before.take(n), keys, os) + before.skip(n),
            i == behind(before.take(n), keys, os).len(),
        decreases docs@.len() - i,
    {
        let ghost front = behind(before.take(n), keys, os);
        let ghost prev = docs@;
        proof {
            assert(before.skip(n).len() > 0);
            assert(docs@[i as int] == before.skip(n)[0]);
            assert(before.skip(n)[0] == before[n]);
            assert(before.take(n + 1).drop_last() =~= before.take(n));
            assert(before.take(n + 1).last() == before[n]);
        }
        let follows = if sort.len() == 0 {
            true
        } else {
            match cursor {
                Some(values) => is_before(values, &docs[i].sort, sort),
                None => true,
            }
        };
        if follows {
            assert(front.push(before[n]) + before.skip(n + 1) =~= prev);
            i = i + 1;
        } else {
            let _ = docs.remove(i);
            assert(docs@ =~= front + before.skip(n + 1));
        }
        proof {
            n = n + 1;
        }
    }
    assert(before.skip(n).len() == 0);
    assert(before.take(n) =~= before);
    assert(docs@ =~= behind(before, keys, os));
}

// ---------------------------------------------------------------------------
// Collapsing
// ---------------------------------------------------------------------------

/// What a document counts for in a field.
pub open spec fn field_key(d: ScoredDocument, field: Seq<char>) -> KeyView {
    sort_key(d.document@, d.score, field)
}

/// One of the documents has the value in the field.
pub open spec fn has_key(s: Seq<ScoredDocument>, field: Seq<char>, key: KeyView) -> bool {
    exists|i: int| 0 <= i < s.len() && field_key(#[trigger] s[i], field) == key
}

/// Of documents with the same value in the field only the first.
pub open spec fn collapsed(s: Seq<ScoredDocument>, field: Option<Seq<char>>) -> Seq<ScoredDocument>
    decreases s.len(),
{
    if s.len() == 0 {
        s
    } else {
        let front = collapsed(s.drop_last(), field);
        match field {
            Some(f) => if has_key(front, f, field_key(s.last(), f)) {
                front
            } else {
                front.push(s.last())
            },
            None => front.push(s.last()),
        }
    }
}

/// The field by which results are collapsed.
pub open spec fn collapse_field(collapse: Option<String>) -> Option<Seq<char>> {
    match collapse {
        Some(f) => Some(f@),
        None => None,
    }
}

/// Collapsing leaves one document for each value, and every value has one.
pub proof fn collapsing_leaves_one_of_each(s: Seq<ScoredDocument>, field: Seq<char>)
    ensures
        forall|i: int, j: int|
            #![trigger collapsed(s, Some(field))[i], collapsed(s, Some(field))[j]]
            0 <= i < j < collapsed(s, Some(field)).len() ==> field_key(
                collapsed(s, Some(field))[i],
                field,
            ) != field_key(collapsed(s, Some(field))[j], field),
        forall|k: int|
            0 <= k < s.len() ==> has_key(
                collapsed(s, Some(field)),
                field,
                field_key(#[trigger] s[k], field),
            ),
    decreases s.len(),
{
    if s.len() > 0 {
        let front = collapsed(s.drop_last(), Some(field));
        let out = collapsed(s, Some(field));
        collapsing_leaves_one_of_each(s.drop_last(), field);
        assert forall|i: int, j: int|
            #![trigger out[i], out[j]]
            0 <= i < j < out.len() implies field_key(out[i], field) != field_key(
            out[j],
            field,
        ) by {
            assert(out[i] == front[i]);
            if j < front.len() {
                assert(out[j] == front[j]);
            } else {
                assert(out[j] == s.last());
                assert(!has_key(front, field, field_key(s.last(), field)));
                assert(field_key(front[i], field) != field_key(s.last(), field));
            }
        }
        assert forall|k: int| 0 <= k < s.len() implies has_key(
            out,
            field,
            field_key(#[trigger] s[k], field),
        ) by {
            let key = field_key(s[k], field);
            if k < s.len() - 1 {
                assert(s.drop_last()[k] == s[k]);
                assert(has_key(front, field, key));
                let i = choose|i: int|
                    0 <= i < front.len() && field_key(#[trigger] front[i], field) == key;
                assert(out[i] == front[i]);
            } else if has_key(front, field, key) {
            } else {
                assert(out[out.len() - 1] == s.last());
            }
        }
    }
}

fn has_value(docs: &Vec<ScoredDocument>, n: usize, field: &str, value: &SortValue) -> (r: bool)
    requires
        n <= docs@.len(),
    ensures
        r == has_key(docs@.take(n as int), field@, value@),
{
    let ghost front = docs@.take(n as int);
    let mut i: usize = 0;
    while i < n
        invariant
            i <= n <= docs@.len(),
            front == docs@.take(n as int),
            forall|k: int| 0 <= k < i ==> field_key(#[trigger] front[k], field@) != value@,
        decreases n - i,
    {
        let v = sort_value(&docs[i], field);
        assert(front[i as int] == docs@[i as int]);
        let equal = !is_lower(&v, value) && !is_lower(value, &v);
        proof {
            lemma_equal(v@, value@);
        }
        if equal {
            return true;
        }
        i = i + 1;
    }
    false
}

proof fn lemma_equal(a: KeyView, b: KeyView)
    ensures
        !lower(a, b) && !lower(b, a) <==> a == b,
{
    match (a, b) {
        (KeyView::Text(x), KeyView::Text(y)) => {
            text::precedes_is_total(x, y);
            text::precedes_is_total(y, x);
        },
        _ => {},
    }
}

/// Keep only the first of documents with the same value in a field.
pub fn collapse(docs: &mut Vec<ScoredDocument>, field: &Option<String>)
    ensures
        final(docs)@ == collapsed(old(docs)@, collapse_field(*field)),
{
    let ghost before = docs@;
    let ghost f = collapse_field(*field);
    let mut i: usize = 0;
    let ghost mut n: int = 0;
    assert(before.take(0) =~= Seq::<ScoredDocument>::empty());
    assert(collapsed(before.take(0), f) + before.skip(0) =~= before);
    while i < docs.len()
        invariant
            0 <= n <= before.len(),
            f == collapse_field(*field),
            docs@ == collapsed(before.take(n), f) + before.skip(n),
            i == collapsed(before.take(n), f).len(),
        decreases docs@.len() - i,
    {
        let ghost front = collapsed(before.take(n), f);
        let ghost prev = docs@;
        proof {
            assert(before.skip(n).len() > 0);
            assert(docs@[i as int] == before.skip(n)[0]);
            assert(before.skip(n)[0] == before[n]);
            assert(before.take(n + 1).drop_last() =~= before.take(n));
            assert(before.take(n + 1).last() == before[n]);
            assert(docs@.take(i as int) =~= front);
        }
        let known = match field {
            Some(name) => {
                let v = sort_value(&docs[i], name.as_str());
                has_value(docs, i, name.as_str(), &v)
            },
            None => false,
        };
        if known {
            let _ = docs.remove(i);
            assert(docs@ =~= front + before.skip(n + 1));
        } else {
            assert(front.push(before[n]) + before.skip(n + 1) =~= prev);
            i = i + 1;
        }
        proof {
            n = n + 1;
        }
    }
    assert(before.skip(n).len() == 0);
    assert(before.take(n) =~= before);
    assert(docs@ =~= collapsed(before, f));
}

// ---------------------------------------------------------------------------
// All together
// ---------------------------------------------------------------------------

/// What a request leaves of documents whose sort values are filled in: sorted, behind the
/// cursor, collapsed, and of that the page.
pub open spec fn selected(s: Seq<ScoredDocument>, options: SearchOptions) -> Seq<ScoredDocument> {
    let os = orders(options.sort@);
    page(
        collapsed(
            behind(arranged(s, os), cursor_keys(options.search_after), os),
            collapse_field(options.collapse),
        ),
        options.from as int,
        options.size as int,
    )
}

/// What a request leaves of documents whose sort values are filled in.
pub fn select(docs: Vec<ScoredDocument>, options: &SearchOptions) -> (out: Vec<ScoredDocument>)
    ensures
        out@ == selected(docs@, *options),
{
    let mut docs = docs;
    arrange(&mut docs, &options.sort);
    drop_up_to(&mut docs, &options.search_after, &options.sort);
    collapse(&mut docs, &options.collapse);
    paginate(docs, options.from, options.size)
}

// ---------------------------------------------------------------------------
// Laws
// ---------------------------------------------------------------------------

/// Numbers are ordered as numbers: by their magnitude where they are not negative, the
/// other way round where they are, both zeros in the same place, and what is no number
/// behind them all.
pub proof fn numbers_have_their_places(n: Number)
    ensures
        ({
            let magnitude = n.bits as int % 0x8000_0000_0000_0000;
            &&& magnitude <= 0x7FF0_0000_0000_0000 && n.bits < 0x8000_0000_0000_0000
                ==> number_place(n) == magnitude
            &&& magnitude <= 0x7FF0_0000_0000_0000 && n.bits >= 0x8000_0000_0000_0000
                ==> number_place(n) == -magnitude
            &&& magnitude > 0x7FF0_0000_0000_0000 ==> number_place(n) > 0x7FF0_0000_0000_0000
        }),
{
    let b = n.bits as int;
    assert(b == b / 0x10_0000_0000_0000 * 0x10_0000_0000_0000 + b % 0x10_0000_0000_0000);
    let high = b / 0x10_0000_0000_0000;
    if b < 0x8000_0000_0000_0000 {
        assert(b % 0x8000_0000_0000_0000 == b);
        assert(high < 0x800);
        assert(high % 0x800 == high);
    } else {
        assert(b % 0x8000_0000_0000_0000 == b - 0x8000_0000_0000_0000);
        assert(0x800 <= high < 0x1000);
        assert(high % 0x800 == high - 0x800);
    }
}

/// Scores are ordered in the same way.
pub proof fn scores_have_their_places(s: Score)
    ensures
        ({
            let magnitude = s.bits as int % 0x8000_0000;
            &&& magnitude <= 0x7F80_0000 && s.bits < 0x8000_0000 ==> score_place(s) == magnitude
            &&& magnitude <= 0x7F80_0000 && s.bits >= 0x8000_0000 ==> score_place(s)
                == -magnitude
            &&& magnitude > 0x7F80_0000 ==> score_place(s) > 0x7F80_0000
        }),
{
}

/// What a document is sorted by: its score under `_score`, and else the field of that name,
/// where it is no list.
pub proof fn documents_are_sorted_by_what_they_hold(
    doc: DocumentView,
    score: Score,
    field: Seq<char>,
)
    ensures
        sort_key(doc, score, "_score"@) == KeyView::Score(score_place(score)),
        field != "_score"@ && !doc.fields.contains_key(field) ==> sort_key(doc, score, field)
            == KeyView::Missing,
        field != "_score"@ && doc.fields.contains_key(field) ==> {
            let key = sort_key(doc, score, field);
            &&& doc.fields[field] matches FieldValueView::Text(t) ==> key == KeyView::Text(t)
            &&& doc.fields[field] matches FieldValueView::Number(n) ==> key == KeyView::Number(
                number_place(n),
            )
            &&& doc.fields[field] matches FieldValueView::Boolean(b) ==> key == KeyView::Flag(b)
            &&& doc.fields[field] is Array ==> key == KeyView::Missing
        },
{
}

/// A value of a sort criterion counts for what it is.
pub proof fn sort_values_count_for_what_they_are(
    flag: bool,
    score: Score,
    number: Number,
    word: String,
)
    ensures
        SortValue::Missing@ == KeyView::Missing,
        SortValue::Flag(flag)@ == KeyView::Flag(flag),
        SortValue::Score(score)@ == KeyView::Score(score_place(score)),
        SortValue::Number(number)@ == KeyView::Number(number_place(number)),
        SortValue::Text(word)@ == KeyView::Text(word@),
{
}

/// The order of values: what is missing first, `false` before `true`, scores and numbers by
/// size, texts as texts, and behind each kind the next.
pub proof fn values_are_ordered(
    x: int,
    y: int,
    s: Seq<char>,
    t: Seq<char>,
    a: KeyView,
    b: KeyView,
    c: KeyView,
)
    ensures
        lower(KeyView::Missing, KeyView::Flag(false)),
        lower(KeyView::Flag(false), KeyView::Flag(true)),
        lower(KeyView::Flag(true), KeyView::Score(x)),
        lower(KeyView::Score(x), KeyView::Score(y)) <==> x < y,
        lower(KeyView::Score(x), KeyView::Number(y)),
        lower(KeyView::Number(x), KeyView::Number(y)) <==> x < y,
        lower(KeyView::Number(x), KeyView::Text(s)),
        lower(KeyView::Text(s), KeyView::Text(t)) <==> text::precedes(s, t),
        !(lower(a, b) && lower(b, a)),
        lower(a, b) && lower(b, c) ==> lower(a, c),
        a != b ==> lower(a, b) || lower(b, a),
{
    lemma_lower(a, b, c);
    lemma_equal(a, b);
    lemma_lower(c, b, a);
    lemma_equal(a, c);
    if lower(a, b) && lower(b, c) && !lower(a, c) {
        if a == c {
            lemma_lower(a, b, a);
        } else {
            lemma_lower(c, b, a);
            lemma_lower(b, a, c);
            lemma_lower(a, c, b);
        }
    }
}

/// The first criterion under which two documents differ decides, in its order; where there is
/// none, neither stands before the other.
pub proof fn the_first_difference_decides(
    a: Seq<KeyView>,
    b: Seq<KeyView>,
    orders: Seq<SortOrder>,
    k: int,
)
    requires
        a.len() == orders.len(),
        b.len() == orders.len(),
        0 <= k <= orders.len(),
        forall|i: int| 0 <= i < k ==> #[trigger] a[i] == b[i],
        k < orders.len() ==> a[k] != b[k],
    ensures
        k == orders.len() ==> !stands_before(a, b, orders, 0),
        k < orders.len() && orders[k] == SortOrder::Asc ==> (stands_before(a, b, orders, 0)
            <==> lower(a[k], b[k])),
        k < orders.len() && orders[k] == SortOrder::Desc ==> (stands_before(a, b, orders, 0)
            <==> lower(b[k], a[k])),
{
    lemma_difference(a, b, orders, k, 0);
}

proof fn lemma_difference(
    a: Seq<KeyView>,
    b: Seq<KeyView>,
    orders: Seq<SortOrder>,
    k: int,
    from: int,
)
    requires
        a.len() == orders.len(),
        b.len() == orders.len(),
        0 <= from <= k <= orders.len(),
        forall|i: int| 0 <= i < k ==> #[trigger] a[i] == b[i],
        k < orders.len() ==> a[k] != b[k],
    ensures
        k == orders.len() ==> !stands_before(a, b, orders, from),
        k < orders.len() && orders[k] == SortOrder::Asc ==> (stands_before(a, b, orders, from)
            <==> lower(a[k], b[k])),
        k < orders.len() && orders[k] == SortOrder::Desc ==> (stands_before(a, b, orders, from)
            <==> lower(b[k], a[k])),
    decreases k - from,
{
    if from < k {
        assert(a[from] == b[from]);
        lemma_equal(a[from], b[from]);
        lemma_difference(a, b, orders, k, from + 1);
    } else if k < orders.len() {
        lemma_equal(a[k], b[k]);
    }
}

/// Filling in sort values changes nothing else of a document, and gives it one value for
/// each criterion, that of its own field.
pub proof fn filling_adds_the_values(
    before: Seq<ScoredDocument>,
    after: Seq<ScoredDocument>,
    sort: Seq<SortClause>,
    i: int,
    k: int,
)
    requires
        filled(before, after, sort),
        0 <= i < before.len(),
        0 <= k < sort.len(),
    ensures
        after.len() == before.len(),
        after[i].document == before[i].document,
        after[i].score == before[i].score,
        after[i].sort@.len() == sort.len(),
        after[i].sort@[k]@ == sort_key(before[i].document@, before[i].score, sort[k].field@),
        keys_of(after[i])[k] == after[i].sort@[k]@,
        orders(sort)[k] == sort[k].order,
        orders(sort).len() == sort.len(),
{
    assert(key_views(after[i].sort@).len() == sort.len());
    assert(key_views(after[i].sort@)[k] == sort_keys(before[i].document@, before[i].score, sort)[k]);
}

/// Arranging keeps the order of documents with the same sort values.
pub proof fn arranging_is_stable(s: Seq<ScoredDocument>, orders: Seq<SortOrder>, keys: Seq<KeyView>)
    ensures
        arranged(s, orders).filter(|d: ScoredDocument| keys_of(d) == keys) == s.filter(
            |d: ScoredDocument| keys_of(d) == keys,
        ),
    decreases s.len(),
{
    let same = |d: ScoredDocument| keys_of(d) == keys;
    reveal(Seq::filter);
    if s.len() > 0 {
        let front = arranged(s.drop_last(), orders);
        let x = s.last();
        arranging_is_stable(s.drop_last(), orders, keys);
        let p = place(front, front.len() as int, x, orders);
        lemma_place(front, front.len() as int, x, orders);
        let head = front.take(p);
        let tail = front.skip(p);
        assert(front =~= head + tail);
        assert(front.insert(p, x) =~= head + (seq![x] + tail));
        Seq::filter_distributes_over_add(head, tail, same);
        Seq::filter_distributes_over_add(head, seq![x] + tail, same);
        Seq::filter_distributes_over_add(seq![x], tail, same);
        Seq::filter_distributes_over_add(s.drop_last(), seq![x], same);
        assert(s =~= s.drop_last() + seq![x]);
        if same(x) {
            assert forall|i: int| 0 <= i < tail.len() implies !same(#[trigger] tail[i]) by {
                assert(tail[i] == front[p + i]);
                if same(tail[i]) {
                    lemma_before(keys_of(x), keys_of(x), keys_of(x), orders, 0);
                }
            }
            lemma_nothing_kept(tail, same);
            assert(arranged(s, orders).filter(same) =~= s.filter(same));
        } else {
            lemma_nothing_kept(seq![x], same);
            assert(arranged(s, orders).filter(same) =~= s.filter(same));
        }
    }
}

proof fn lemma_nothing_kept(s: Seq<ScoredDocument>, pred: spec_fn(ScoredDocument) -> bool)
    requires
        forall|i: int| 0 <= i < s.len() ==> !pred(#[trigger] s[i]),
    ensures
        s.filter(pred) == Seq::<ScoredDocument>::empty(),
    decreases s.len(),
{
    reveal(Seq::filter);
    if s.len() > 0 {
        assert(!pred(s[s.len() - 1]));
        lemma_nothing_kept(s.drop_last(), pred);
    }
}

/// A cursor keeps, in their order, the documents that stand behind it; without a cursor, or
/// without criteria, all stay.
pub proof fn a_cursor_is_a_filter(
    s: Seq<ScoredDocument>,
    cursor: Seq<KeyView>,
    orders: Seq<SortOrder>,
)
    ensures
        orders.len() > 0 ==> behind(s, Some(cursor), orders) == s.filter(
            |d: ScoredDocument| stands_before(cursor, keys_of(d), orders, 0),
        ),
        orders.len() == 0 ==> behind(s, Some(cursor), orders) == s,
        behind(s, None, orders) == s,
    decreases s.len(),
{
    reveal(Seq::filter);
    if s.len() > 0 {
        a_cursor_is_a_filter(s.drop_last(), cursor, orders);
        assert(s =~= s.drop_last().push(s.last()));
    }
}

/// Without a field to collapse by all documents stay.
pub proof fn nothing_collapses_without_a_field(s: Seq<ScoredDocument>)
    ensures
        collapsed(s, None) == s,
    decreases s.len(),
{
    if s.len() > 0 {
        nothing_collapses_without_a_field(s.drop_last());
        assert(s =~= s.drop_last().push(s.last()));
    }
}

/// Collapsing keeps, in their order, the first documents of their values: what is kept at
/// `i` stands in the list at a place before which no document has its value, and behind the
/// place of whatever is kept before it.
pub proof fn collapsing_keeps_the_first(s: Seq<ScoredDocument>, field: Seq<char>) -> (at: Seq<int>)
    ensures
        at.len() == collapsed(s, Some(field)).len(),
        forall|i: int|
            0 <= i < at.len() ==> 0 <= #[trigger] at[i] < s.len() && s[at[i]] == collapsed(
                s,
                Some(field),
            )[i],
        forall|i: int, j: int| 0 <= i < j < at.len() ==> #[trigger] at[i] < #[trigger] at[j],
        forall|i: int, k: int|
            #![trigger at[i], s[k]]
            0 <= i < at.len() && 0 <= k < at[i] ==> field_key(s[k], field) != field_key(
                s[at[i]],
                field,
            ),
    decreases s.len(),
{
    if s.len() == 0 {
        Seq::empty()
    } else {
        let front = s.drop_last();
        let x = s.last();
        let kept = collapsed(front, Some(field));
        let before = collapsing_keeps_the_first(front, field);
        collapsing_leaves_one_of_each(front, field);
        let at = if has_key(kept, field, field_key(x, field)) {
            before
        } else {
            before.push(front.len() as int)
        };
        assert forall|i: int| 0 <= i < at.len() implies 0 <= #[trigger] at[i] < s.len()
            && s[at[i]] == collapsed(s, Some(field))[i] by {
            if i < before.len() {
                assert(at[i] == before[i]);
                assert(s[at[i]] == front[before[i]]);
            }
        }
        assert forall|i: int, j: int| 0 <= i < j < at.len() implies #[trigger] at[i]
            < #[trigger] at[j] by {
            assert(at[i] == before[i]);
            if j < before.len() {
                assert(at[j] == before[j]);
            }
        }
        assert forall|i: int, k: int|
            #![trigger at[i], s[k]]
            0 <= i < at.len() && 0 <= k < at[i] implies field_key(s[k], field) != field_key(
            s[at[i]],
            field,
        ) by {
            if i < before.len() {
                assert(at[i] == before[i]);
                assert(front[k] == s[k]);
                assert(front[before[i]] == s[at[i]]);
            } else {
                assert(front[k] == s[k]);
                if field_key(s[k], field) == field_key(x, field) {
                    assert(has_key(kept, field, field_key(front[k], field)));
                }
            }
        }
        at
    }
}

/// A document may be shown: it stands behind the cursor, where there is one.
pub open spec fn may_show(d: ScoredDocument, options: SearchOptions) -> bool {
    match options.search_after {
        Some(values) => options.sort@.len() > 0 ==> stands_before(
            key_views(values@),
            key_views(d.sort@),
            orders(options.sort@),
            0,
        ),
        None => true,
    }
}

/// The values that the documents that may be shown have in a field.
pub open spec fn values_to_show(
    s: Seq<ScoredDocument>,
    options: SearchOptions,
    field: Seq<char>,
) -> Set<KeyView> {
    s.filter(|d: ScoredDocument| may_show(d, options)).map_values(
        |d: ScoredDocument| field_key(d, field),
    ).to_set()
}

/// The documents behind the cursor, in order.
spec fn shown_in_order(s: Seq<ScoredDocument>, options: SearchOptions) -> Seq<ScoredDocument> {
    let os = orders(options.sort@);
    behind(arranged(s, os), cursor_keys(options.search_after), os)
}

proof fn lemma_shown(s: Seq<ScoredDocument>, options: SearchOptions)
    ensures
        shown_in_order(s, options) == arranged(s, orders(options.sort@)).filter(
            |d: ScoredDocument| may_show(d, options),
        ),
        is_arranged(shown_in_order(s, options), orders(options.sort@)),
        forall|d: ScoredDocument| #[trigger]
            shown_in_order(s, options).contains(d) <==> s.contains(d) && may_show(d, options),
        shown_in_order(s, options).len() == s.filter(
            |d: ScoredDocument| may_show(d, options),
        ).len(),
{
    let os = orders(options.sort@);
    let all = arranged(s, os);
    let ok = |d: ScoredDocument| may_show(d, options);
    arranging_sorts(s, os);
    let cursor = match options.search_after {
        Some(values) => key_views(values@),
        None => Seq::empty(),
    };
    a_cursor_is_a_filter(all, cursor, os);
    match options.search_after {
        Some(_) => {
            if options.sort@.len() > 0 {
                lemma_same_filter(
                    all,
                    |d: ScoredDocument| stands_before(cursor, keys_of(d), os, 0),
                    ok,
                );
            } else {
                lemma_all_kept(all, ok);
            }
        },
        None => {
            lemma_all_kept(all, ok);
        },
    }
    lemma_filter_keeps_order(all, ok, os);
    lemma_filter_of_permutation(s, all, ok);
    assert forall|d: ScoredDocument| #[trigger]
        shown_in_order(s, options).contains(d) <==> s.contains(d) && may_show(d, options) by {
        lemma_filter_contains(all, ok, d);
        s.to_multiset_ensures();
        all.to_multiset_ensures();
        assert(s.contains(d) <==> s.to_multiset().count(d) > 0);
        assert(all.contains(d) <==> all.to_multiset().count(d) > 0);
    }
}

proof fn lemma_same_filter(
    s: Seq<ScoredDocument>,
    p: spec_fn(ScoredDocument) -> bool,
    q: spec_fn(ScoredDocument) -> bool,
)
    requires
        forall|d: ScoredDocument| #[trigger] p(d) == q(d),
    ensures
        s.filter(p) == s.filter(q),
    decreases s.len(),
{
    reveal(Seq::filter);
    if s.len() > 0 {
        lemma_same_filter(s.drop_last(), p, q);
        assert(p(s.last()) == q(s.last()));
    }
}

proof fn lemma_all_kept(s: Seq<ScoredDocument>, p: spec_fn(ScoredDocument) -> bool)
    requires
        forall|d: ScoredDocument| #[trigger] p(d),
    ensures
        s.filter(p) == s,
    decreases s.len(),
{
    reveal(Seq::filter);
    if s.len() > 0 {
        lemma_all_kept(s.drop_last(), p);
        assert(p(s.last()));
        assert(s =~= s.drop_last().push(s.last()));
    }
}

proof fn lemma_filter_contains(
    s: Seq<ScoredDocument>,
    p: spec_fn(ScoredDocument) -> bool,
    d: ScoredDocument,
)
    ensures
        s.filter(p).contains(d) <==> s.contains(d) && p(d),
    decreases s.len(),
{
    reveal(Seq::filter);
    if s.len() > 0 {
        let x = s.last();
        lemma_filter_contains(s.drop_last(), p, d);
        assert(s =~= s.drop_last().push(x));
        lemma_contains_push(s.drop_last(), x, d);
        lemma_contains_push(s.drop_last().filter(p), x, d);
    }
}

proof fn lemma_filter_keeps_order(
    s: Seq<ScoredDocument>,
    p: spec_fn(ScoredDocument) -> bool,
    os: Seq<SortOrder>,
)
    requires
        is_arranged(s, os),
    ensures
        is_arranged(s.filter(p), os),
    decreases s.len(),
{
    reveal(Seq::filter);
    if s.len() > 0 {
        let front = s.drop_last();
        let x = s.last();
        assert forall|i: int, j: int|
            #![trigger front[i], front[j]]
            0 <= i < j < front.len() implies !stands_before(
            keys_of(front[j]),
            keys_of(front[i]),
            os,
            0,
        ) by {
            assert(front[i] == s[i] && front[j] == s[j]);
        }
        lemma_filter_keeps_order(front, p, os);
        let kept = front.filter(p);
        let all = s.filter(p);
        assert forall|i: int, j: int|
            #![trigger all[i], all[j]]
            0 <= i < j < all.len() implies !stands_before(
            keys_of(all[j]),
            keys_of(all[i]),
            os,
            0,
        ) by {
            if j < kept.len() {
                assert(all[i] == kept[i] && all[j] == kept[j]);
            } else {
                assert(all[i] == kept[i] && all[j] == x);
                assert(kept.contains(kept[i]));
                lemma_filter_contains(front, p, kept[i]);
                let k = choose|k: int| 0 <= k < front.len() && front[k] == kept[i];
                assert(s[k] == kept[i] && s[s.len() - 1] == x);
            }
        }
    }
}

proof fn lemma_filter_one(x: ScoredDocument, p: spec_fn(ScoredDocument) -> bool)
    ensures
        seq![x].filter(p).len() == if p(x) {
            1int
        } else {
            0
        },
{
    reveal(Seq::filter);
    let none = Seq::<ScoredDocument>::empty();
    assert(none.filter(p).len() == 0);
    assert(seq![x].drop_last() =~= none);
    assert(seq![x].last() == x);
}

proof fn lemma_filter_of_permutation(
    s: Seq<ScoredDocument>,
    t: Seq<ScoredDocument>,
    p: spec_fn(ScoredDocument) -> bool,
)
    requires
        s.to_multiset() == t.to_multiset(),
    ensures
        s.filter(p).len() == t.filter(p).len(),
    decreases s.len(),
{
    reveal(Seq::filter);
    s.to_multiset_ensures();
    t.to_multiset_ensures();
    if s.len() > 0 {
        let x = s.last();
        assert(s.contains(x));
        assert(t.to_multiset().count(x) > 0);
        assert(t.contains(x));
        let k = choose|k: int| 0 <= k < t.len() && t[k] == x;
        let rest = t.remove(k);
        assert(t =~= t.take(k) + (seq![x] + t.skip(k + 1)));
        assert(rest =~= t.take(k) + t.skip(k + 1));
        Seq::filter_distributes_over_add(t.take(k), seq![x] + t.skip(k + 1), p);
        Seq::filter_distributes_over_add(seq![x], t.skip(k + 1), p);
        Seq::filter_distributes_over_add(t.take(k), t.skip(k + 1), p);
        lemma_filter_one(x, p);
        assert(s =~= s.drop_last().push(x));
        s.drop_last().to_multiset_ensures();
        assert(s.drop_last().to_multiset() =~= s.to_multiset().remove(x));
        vstd::seq_lib::to_multiset_remove(t, k);
        assert(rest.to_multiset() =~= t.to_multiset().remove(x));
        lemma_filter_of_permutation(s.drop_last(), rest, p);
    } else {
        assert(t.len() == 0) by {
            if t.len() > 0 {
                assert(t.contains(t[0]));
                assert(t.to_multiset().count(t[0]) > 0);
            }
        }
    }
}

/// A page of collapsed results is full while there are values that it does not show: it has
/// as many results as there are values among the documents that may be shown, from `from` on
/// and `size` at most.
pub proof fn collapsed_pages_are_full(s: Seq<ScoredDocument>, options: SearchOptions)
    requires
        options.collapse is Some,
    ensures
        ({
            let values = values_to_show(s, options, options.collapse->0@).len();
            let left = if values > options.from {
                values - options.from
            } else {
                0
            };
            selected(s, options).len() == if left < options.size {
                left
            } else {
                options.size as int
            }
        }),
{
    let field = options.collapse->0@;
    let shown = shown_in_order(s, options);
    let kept = collapsed(shown, Some(field));
    let key = |d: ScoredDocument| field_key(d, field);
    lemma_shown(s, options);
    collapsing_leaves_one_of_each(shown, field);
    let at = collapsing_keeps_the_first(shown, field);
    let keys = kept.map_values(key);
    assert(keys.no_duplicates()) by {
        assert forall|i: int, j: int|
            0 <= i < keys.len() && 0 <= j < keys.len() && i != j implies keys[i] != keys[j] by {
            let (a, b) = if i < j {
                (i, j)
            } else {
                (j, i)
            };
            assert(field_key(kept[a], field) != field_key(kept[b], field));
        }
    }
    keys.unique_seq_to_set();
    let ok = |d: ScoredDocument| may_show(d, options);
    let allowed = s.filter(ok);
    let all = allowed.map_values(key);
    assert forall|k: KeyView| keys.to_set().contains(k) <==> all.to_set().contains(k) by {
        if keys.to_set().contains(k) {
            let i = choose|i: int| 0 <= i < keys.len() && keys[i] == k;
            assert(shown[at[i]] == kept[i]);
            assert(shown.contains(kept[i]));
            lemma_filter_contains(s, ok, kept[i]);
            let j = choose|j: int| 0 <= j < allowed.len() && allowed[j] == kept[i];
            assert(all[j] == k);
        }
        if all.to_set().contains(k) {
            let j = choose|j: int| 0 <= j < all.len() && all[j] == k;
            assert(allowed.contains(allowed[j]));
            lemma_filter_contains(s, ok, allowed[j]);
            assert(shown.contains(allowed[j]));
            let n = choose|n: int| 0 <= n < shown.len() && shown[n] == allowed[j];
            assert(has_key(kept, field, field_key(shown[n], field)));
            let i = choose|i: int|
                0 <= i < kept.len() && field_key(#[trigger] kept[i], field) == k;
            assert(keys[i] == k);
        }
    }
    assert(keys.to_set() =~= all.to_set());
}

/// A page that is not collapsed is full while there are documents that it does not show.
pub proof fn pages_are_full(s: Seq<ScoredDocument>, options: SearchOptions)
    requires
        options.collapse is None,
    ensures
        ({
            let n = s.filter(|d: ScoredDocument| may_show(d, options)).len();
            let left = if n > options.from {
                n - options.from
            } else {
                0
            };
            selected(s, options).len() == if left < options.size {
                left
            } else {
                options.size as int
            }
        }),
{
    lemma_shown(s, options);
    nothing_collapses_without_a_field(shown_in_order(s, options));
}

/// Whatever is shown was found, stands behind the cursor and is in order; no two results have
/// the same value in the field of `collapse`; and no document of that value that may be shown
/// stands before the one that is.
pub proof fn results_are_what_was_asked_for(
    s: Seq<ScoredDocument>,
    options: SearchOptions,
    i: int,
    j: int,
    d: ScoredDocument,
)
    requires
        0 <= i < j < selected(s, options).len(),
    ensures
        ({
            let out = selected(s, options);
            let os = orders(options.sort@);
            &&& s.contains(out[i]) && may_show(out[i], options)
            &&& s.contains(out[j]) && may_show(out[j], options)
            &&& !stands_before(keys_of(out[j]), keys_of(out[i]), os, 0)
            &&& options.collapse matches Some(f) ==> field_key(out[i], f@) != field_key(
                out[j],
                f@,
            )
            &&& options.collapse matches Some(f) ==> (s.contains(d) && may_show(d, options)
                && field_key(d, f@) == field_key(out[i], f@) ==> !stands_before(
                keys_of(d),
                keys_of(out[i]),
                os,
                0,
            ))
        }),
{
    let os = orders(options.sort@);
    let shown = shown_in_order(s, options);
    let kept = collapsed(shown, collapse_field(options.collapse));
    let out = selected(s, options);
    let start = options.from as int;
    lemma_shown(s, options);
    assert(out[i] == kept[start + i] && out[j] == kept[start + j]);
    match options.collapse {
        Some(f) => {
            collapsing_leaves_one_of_each(shown, f@);
            let at = collapsing_keeps_the_first(shown, f@);
            let a = at[start + i];
            let b = at[start + j];
            assert(a < b);
            assert(shown[a] == out[i] && shown[b] == out[j]);
            assert(shown.contains(shown[a]) && shown.contains(shown[b]));
            assert(field_key(kept[start + i], f@) != field_key(kept[start + j], f@));
            if s.contains(d) && may_show(d, options) && field_key(d, f@) == field_key(
                out[i],
                f@,
            ) {
                assert(shown.contains(d));
                let k = choose|k: int| 0 <= k < shown.len() && shown[k] == d;
                if k == a {
                    lemma_before(keys_of(d), keys_of(d), keys_of(d), os, 0);
                } else {
                    if k < a {
                        assert(field_key(shown[k], f@) != field_key(shown[at[start + i]], f@));
                    }
                    assert(!stands_before(keys_of(shown[k]), keys_of(shown[a]), os, 0));
                }
            }
        },
        None => {
            nothing_collapses_without_a_field(shown);
            assert(shown.contains(shown[start + i]) && shown.contains(shown[start + j]));
        },
    }
}

/// Nothing that is left out belongs before what the first page shows.
pub proof fn the_best_come_first(
    s: Seq<ScoredDocument>,
    options: SearchOptions,
    d: ScoredDocument,
    i: int,
)
    requires
        options.from == 0,
        options.collapse is None,
        0 <= i < selected(s, options).len(),
        s.contains(d),
        may_show(d, options),
        !selected(s, options).contains(d),
    ensures
        !stands_before(keys_of(d), keys_of(selected(s, options)[i]), orders(options.sort@), 0),
{
    let shown = shown_in_order(s, options);
    let out = selected(s, options);
    lemma_shown(s, options);
    nothing_collapses_without_a_field(shown);
    assert(shown.contains(d));
    let k = choose|k: int| 0 <= k < shown.len() && shown[k] == d;
    if k < out.len() {
        assert(out[k] == d);
    }
    assert(out[i] == shown[i]);
}

/// Two pages, one behind the other, are one page: what the first leaves out the second shows.
pub proof fn pages_join(
    s: Seq<ScoredDocument>,
    first: SearchOptions,
    second: SearchOptions,
    both: SearchOptions,
)
    requires
        second.from == first.from + first.size,
        both.from == first.from,
        both.size == first.size + second.size,
        first.sort == both.sort,
        second.sort == both.sort,
        first.search_after == both.search_after,
        second.search_after == both.search_after,
        first.collapse == both.collapse,
        second.collapse == both.collapse,
    ensures
        selected(s, first) + selected(s, second) == selected(s, both),
{
    assert(selected(s, first) + selected(s, second) =~= selected(s, both));
}

/// Filling in sort values changes nothing else of a document, and gives it as many values
/// as there are criteria.
pub proof fn filling_changes_nothing_else(
    before: Seq<ScoredDocument>,
    after: Seq<ScoredDocument>,
    sort: Seq<SortClause>,
    i: int,
)
    requires
        filled(before, after, sort),
        0 <= i < after.len(),
    ensures
        after.len() == before.len(),
        after[i].document == before[i].document,
        after[i].score == before[i].score,
        after[i].sort@.len() == sort.len(),
{
    assert(key_views(after[i].sort@).len() == sort.len());
}

/// Every result was among the documents that were found and stands behind the cursor, and
/// there are no more results than were asked for.
pub proof fn shown_results_were_found(s: Seq<ScoredDocument>, options: SearchOptions, i: int)
    requires
        0 <= i < selected(s, options).len(),
    ensures
        s.contains(selected(s, options)[i]),
        may_show(selected(s, options)[i], options),
        selected(s, options).len() <= options.size,
{
    let shown = shown_in_order(s, options);
    lemma_shown(s, options);
    let start = options.from as int;
    match options.collapse {
        Some(f) => {
            let at = collapsing_keeps_the_first(shown, f@);
            assert(shown[at[start + i]] == selected(s, options)[i]);
            assert(shown.contains(shown[at[start + i]]));
        },
        None => {
            nothing_collapses_without_a_field(shown);
            assert(shown.contains(shown[start + i]));
        },
    }
}

proof fn lemma_same_keys(
    a: Seq<KeyView>,
    b: Seq<KeyView>,
    c: Seq<KeyView>,
    d: Seq<KeyView>,
    orders: Seq<SortOrder>,
    from: int,
)
    requires
        0 <= from,
        forall|i: int| 0 <= i < orders.len() ==> #[trigger] key_at(a, i) == key_at(c, i),
        forall|i: int| 0 <= i < orders.len() ==> #[trigger] key_at(b, i) == key_at(d, i),
    ensures
        stands_before(a, b, orders, from) == stands_before(c, d, orders, from),
    decreases orders.len() - from,
{
    if from < orders.len() {
        assert(key_at(a, from) == key_at(c, from));
        assert(key_at(b, from) == key_at(d, from));
        lemma_same_keys(a, b, c, d, orders, from + 1);
    }
}

/// A value that is not given counts as one that is missing, and a value for which there is no
/// criterion does not count.
pub proof fn values_that_are_not_given_are_missing(
    a: Seq<KeyView>,
    b: Seq<KeyView>,
    orders: Seq<SortOrder>,
    extra: KeyView,
)
    ensures
        stands_before(a.push(KeyView::Missing), b, orders, 0) == stands_before(a, b, orders, 0),
        stands_before(a, b.push(KeyView::Missing), orders, 0) == stands_before(a, b, orders, 0),
        a.len() >= orders.len() ==> stands_before(a.push(extra), b, orders, 0) == stands_before(
            a,
            b,
            orders,
            0,
        ),
        b.len() >= orders.len() ==> stands_before(a, b.push(extra), orders, 0) == stands_before(
            a,
            b,
            orders,
            0,
        ),
{
    lemma_same_keys(a.push(KeyView::Missing), b, a, b, orders, 0);
    lemma_same_keys(a, b.push(KeyView::Missing), a, b, orders, 0);
    if a.len() >= orders.len() {
        lemma_same_keys(a.push(extra), b, a, b, orders, 0);
    }
    if b.len() >= orders.len() {
        lemma_same_keys(a, b.push(extra), a, b, orders, 0);
    }
}

/// Documents are collapsed by what they would be sorted by, a cursor holds the values that
/// the client sent, and a request that names no field, or no cursor, has none.
pub proof fn requests_are_taken_at_their_word(
    d: ScoredDocument,
    field: Seq<char>,
    collapse: Option<String>,
    cursor: Option<Vec<SortValue>>,
    i: int,
)
    ensures
        field_key(d, field) == sort_key(d.document@, d.score, field),
        collapse matches Some(f) ==> collapse_field(collapse) == Some(f@),
        collapse is None ==> collapse_field(collapse) is None,
        cursor is None ==> cursor_keys(cursor) is None,
        cursor matches Some(values) ==> (cursor_keys(cursor) matches Some(keys) && keys.len()
            == values@.len() && (0 <= i < values@.len() ==> keys[i] == values@[i]@)),
{
}

} // verus!
