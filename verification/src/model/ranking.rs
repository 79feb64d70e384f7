//! Stable sorting in descending order, and search results by score.

use vstd::prelude::*;

use crate::model::query::ScoredDocument;

verus! {

/// Every score denotes a number.
pub open spec fn all_numbers(s: Seq<ScoredDocument>) -> bool {
    forall|i: int| 0 <= i < s.len() ==> !(#[trigger] s[i]).score.nan()
}

/// A type whose values are ordered by an integer.
pub trait Ranked: Sized {
    spec fn rank(&self) -> int;

    fn rank_value(&self) -> (r: i128)
        ensures
            r == self.rank(),
    ;
}

impl Ranked for ScoredDocument {
    open spec fn rank(&self) -> int {
        self.score.rank()
    }

    fn rank_value(&self) -> (r: i128) {
        self.score.rank_of() as i128
    }
}

/// No item stands before one with a greater rank.
pub open spec fn descending<T: Ranked>(s: Seq<T>) -> bool {
    forall|i: int, j: int|
        #![trigger s[i], s[j]]
        0 <= i < j < s.len() ==> s[i].rank() >= s[j].rank()
}

/// Where `x` belongs among the first `n` items of a descending list: behind
/// every item whose rank is not below its own.
pub open spec fn slot<T: Ranked>(s: Seq<T>, n: int, x: T) -> int
    decreases n,
{
    if n <= 0 {
        0
    } else if s[n - 1].rank() >= x.rank() {
        n
    } else {
        slot(s, n - 1, x)
    }
}

/// `s` in descending order of ranks; items of equal rank keep their order.
pub open spec fn ranked<T: Ranked>(s: Seq<T>) -> Seq<T>
    decreases s.len(),
{
    if s.len() == 0 {
        s
    } else {
        let front = ranked(s.drop_last());
        front.insert(slot(front, front.len() as int, s.last()), s.last())
    }
}

proof fn lemma_slot<T: Ranked>(s: Seq<T>, n: int, x: T)
    requires
        0 <= n <= s.len(),
        descending(s),
    ensures
        0 <= slot(s, n, x) <= n,
        forall|i: int| 0 <= i < slot(s, n, x) ==> (#[trigger] s[i]).rank() >= x.rank(),
        forall|i: int| slot(s, n, x) <= i < n ==> (#[trigger] s[i]).rank() < x.rank(),
    decreases n,
{
    if n > 0 {
        if s[n - 1].rank() >= x.rank() {
            assert forall|i: int| 0 <= i < n implies (#[trigger] s[i]).rank()
                >= x.rank() by {
                if i < n - 1 {
                    assert(s[i].rank() >= s[n - 1].rank());
                }
            }
        } else {
            lemma_slot(s, n - 1, x);
        }
    }
}

/// Ranking gives a descending list of the same items, each as often as
/// before.
pub proof fn ranking_is_a_descending_permutation<T: Ranked>(s: Seq<T>)
    ensures
        descending(ranked(s)),
        ranked(s).len() == s.len(),
        ranked(s).to_multiset() == s.to_multiset(),
    decreases s.len(),
{
    if s.len() > 0 {
        let front = ranked(s.drop_last());
        let x = s.last();
        ranking_is_a_descending_permutation(s.drop_last());
        let p = slot(front, front.len() as int, x);
        lemma_slot(front, front.len() as int, x);
        let after = front.insert(p, x);
        assert forall|i: int, j: int|
            #![trigger after[i], after[j]]
            0 <= i < j < after.len() implies after[i].rank() >= after[j].rank() by {
            let a = if i < p {
                i
            } else {
                i - 1
            };
            let b = if j < p {
                j
            } else {
                j - 1
            };
            if i != p && j != p {
                assert(front[a].rank() >= front[b].rank());
            } else if i == p {
                assert(front[b].rank() < x.rank());
            } else {
                assert(front[a].rank() >= x.rank());
            }
        }
        vstd::seq_lib::to_multiset_insert(front, p, x);
        assert(s =~= s.drop_last().push(x));
        s.drop_last().to_multiset_ensures();
        assert(s.to_multiset() =~= s.drop_last().to_multiset().insert(x));
    }
}

/// The items of rank `r`, in their order.
pub open spec fn with_rank<T: Ranked>(s: Seq<T>, r: int) -> Seq<T> {
    s.filter(|d: T| d.rank() == r)
}

proof fn lemma_with_rank_add<T: Ranked>(a: Seq<T>, b: Seq<T>, r: int)
    ensures
        with_rank(a + b, r) == with_rank(a, r) + with_rank(b, r),
    decreases b.len(),
{
    reveal(Seq::filter);
    if b.len() == 0 {
        assert(a + b =~= a);
        assert(with_rank(a, r) + with_rank(b, r) =~= with_rank(a, r));
    } else {
        lemma_with_rank_add(a, b.drop_last(), r);
        assert((a + b).drop_last() =~= a + b.drop_last());
        assert((a + b).last() == b.last());
        assert(with_rank(a + b, r) =~= with_rank(a, r) + with_rank(b, r));
    }
}

proof fn lemma_with_rank_none<T: Ranked>(s: Seq<T>, r: int)
    requires
        forall|i: int| 0 <= i < s.len() ==> (#[trigger] s[i]).rank() != r,
    ensures
        with_rank(s, r) == Seq::<T>::empty(),
    decreases s.len(),
{
    reveal(Seq::filter);
    if s.len() > 0 {
        assert(s.last().rank() != r);
        lemma_with_rank_none(s.drop_last(), r);
    }
}

/// Items of equal rank keep their order.
pub proof fn ranking_is_stable<T: Ranked>(s: Seq<T>, r: int)
    ensures
        with_rank(ranked(s), r) == with_rank(s, r),
    decreases s.len(),
{
    if s.len() > 0 {
        let front = ranked(s.drop_last());
        let x = s.last();
        ranking_is_stable(s.drop_last(), r);
        ranking_is_a_descending_permutation(s.drop_last());
        let p = slot(front, front.len() as int, x);
        lemma_slot(front, front.len() as int, x);
        let head = front.take(p);
        let tail = front.skip(p);
        assert(front =~= head + tail);
        assert(front.insert(p, x) =~= head + (seq![x] + tail));
        lemma_with_rank_add(head, tail, r);
        lemma_with_rank_add(head, seq![x] + tail, r);
        lemma_with_rank_add(seq![x], tail, r);
        lemma_with_rank_add(s.drop_last(), seq![x], r);
        assert(s =~= s.drop_last() + seq![x]);
        if x.rank() == r {
            assert forall|i: int| 0 <= i < tail.len() implies (#[trigger] tail[i]).rank()
                != r by {
                assert(tail[i] == front[p + i]);
            }
            lemma_with_rank_none(tail, r);
        } else {
            lemma_with_rank_none(seq![x], r);
        }
        assert(with_rank(ranked(s), r) =~= with_rank(s, r));
    }
}

/// Put the items into descending order of their ranks; items of equal rank keep
/// their order.
pub fn sort_descending<T: Ranked>(docs: &mut Vec<T>)
    ensures
        final(docs)@ == ranked(old(docs)@),
{
    let ghost before = docs@;
    let mut n: usize = 0;
    assert(before.take(0) =~= Seq::<T>::empty());
    assert(ranked(before.take(0)) + before.skip(0) =~= before);
    while n < docs.len()
        invariant
            n <= docs@.len(),
            docs@.len() == before.len(),
            docs@ == ranked(before.take(n as int)) + before.skip(n as int),
            ranked(before.take(n as int)).len() == n,
        decreases docs@.len() - n,
    {
        let ghost front = ranked(before.take(n as int));
        let x = docs.remove(n);
        assert(x == before[n as int]);
        assert(docs@ =~= front + before.skip(n + 1));
        let mut p: usize = n;
        while p > 0 && docs[p - 1].rank_value() < x.rank_value()
            invariant
                p <= n <= docs@.len(),
                front.len() == n,
                docs@ == front + before.skip(n + 1),
                slot(front, n as int, x) == slot(front, p as int, x),
            decreases p,
        {
            assert(docs@[p - 1] == front[p - 1]);
            p = p - 1;
        }
        proof {
            if p > 0 {
                assert(docs@[p - 1] == front[p - 1]);
            }
            assert(slot(front, p as int, x) == p);
            let next = before.take(n + 1);
            assert(next.drop_last() =~= before.take(n as int));
            assert(next.last() == x);
        }
        let ghost mid = docs@;
        docs.insert(p, x);
        assert(mid.insert(p as int, x) =~= front.insert(p as int, x) + before.skip(n + 1));
        n = n + 1;
    }
    assert(before.take(n as int) =~= before);
    assert(docs@ =~= ranked(before));
}

/// Put the documents into descending order of their scores; documents with equal
/// scores keep their order.  Scores that are not numbers have no place in an order:
/// there may be none.
pub fn sort_by_score(docs: &mut Vec<ScoredDocument>)
    requires
        all_numbers(old(docs)@),
    ensures
        final(docs)@ == ranked(old(docs)@),
{
    sort_descending(docs);
}

/// The documents at positions `from` up to `from + size`.
pub open spec fn page(s: Seq<ScoredDocument>, from: int, size: int) -> Seq<ScoredDocument> {
    let start = if from < s.len() {
        from
    } else {
        s.len() as int
    };
    let end = if start + size < s.len() {
        start + size
    } else {
        s.len() as int
    };
    s.subrange(start, end)
}

/// Keep the documents at positions `from` up to `from + size`.
pub fn paginate(docs: Vec<ScoredDocument>, from: usize, size: usize) -> (out: Vec<ScoredDocument>)
    ensures
        out@ == page(docs@, from as int, size as int),
{
    let ghost all = docs@;
    let mut head = docs;
    let n: usize = head.len();
    let start: usize = if from < n {
        from
    } else {
        n
    };
    let mut out = head.split_off(start);
    if size < out.len() {
        out.truncate(size);
    }
    assert(out@ =~= page(all, from as int, size as int));
    out
}

// ---------------------------------------------------------------------------
// Laws
// ---------------------------------------------------------------------------

/// A page holds what stands from its beginning on, as many as it has room for and there
/// are; and two pages, one behind the other, are one page.
pub proof fn pages_show_what_stands_there(
    s: Seq<ScoredDocument>,
    from: int,
    size: int,
    more: int,
    i: int,
)
    requires
        0 <= from,
        0 <= size,
        0 <= more,
    ensures
        from + size <= s.len() ==> page(s, from, size).len() == size,
        from <= s.len() < from + size ==> page(s, from, size).len() == s.len() - from,
        from > s.len() ==> page(s, from, size).len() == 0,
        0 <= i < page(s, from, size).len() ==> page(s, from, size)[i] == s[from + i],
        page(s, from, size) + page(s, from + size, more) == page(s, from, size + more),
{
    assert(page(s, from, size) + page(s, from + size, more) =~= page(s, from, size + more));
}

/// The document with the greatest score comes first.
pub proof fn the_greatest_score_comes_first(s: Seq<ScoredDocument>, d: ScoredDocument, i: int)
    requires
        all_numbers(s),
        s.contains(d),
        0 <= i < s.len(),
        !page(ranked(s), 0, i).contains(d),
    ensures
        forall|j: int|
            0 <= j < i ==> !d.score.above((#[trigger] page(ranked(s), 0, i)[j]).score),
        !d.score.above(ranked(s)[i].score),
{
    ranking_is_a_descending_permutation(s);
    let r = ranked(s);
    let first = page(r, 0, i);
    s.to_multiset_ensures();
    r.to_multiset_ensures();
    assert(s.to_multiset().count(d) > 0);
    assert(r.to_multiset().count(d) > 0);
    assert(r.contains(d));
    let k = choose|k: int| 0 <= k < r.len() && r[k] == d;
    if k < i {
        assert(first[k] == d);
        assert(first.contains(d));
    }
    assert forall|j: int| 0 <= j < i implies !d.score.above((#[trigger] first[j]).score) by {
        assert(first[j] == r[j]);
        assert(r[j].rank() >= r[k].rank());
    }
    if k > i {
        assert(r[i].rank() >= r[k].rank());
    }
}

/// All scores are numbers where every document has a number for its score.
pub proof fn all_scores_are_numbers(s: Seq<ScoredDocument>, d: ScoredDocument)
    ensures
        all_numbers(s) && s.contains(d) ==> !d.score.nan(),
        (forall|i: int| 0 <= i < s.len() ==> !(#[trigger] s[i]).score.nan()) ==> all_numbers(s),
        d.rank() == d.score.rank(),
{
}

} // verus!
