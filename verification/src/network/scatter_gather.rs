//! Searching every node of the cluster, and merging what they find.
//!
//! The query goes out to all nodes at once.  Nodes that fail or are too slow are
//! left out.  Of a document that several nodes found, the copy with the highest
//! score counts; the best documents of all are the result.

use vstd::prelude::*;

use crate::model::query::{AggregationResult, ScoredDocument, SearchResult};
use crate::model::ranking::{
    all_numbers, descending, ranked, ranking_is_a_descending_permutation, sort_by_score,
};
use crate::network::connection_pool::ConnectionPool;
use crate::table::Table;

verus! {

/// The time that a node has to answer, in milliseconds.
pub const NODE_TIMEOUT_MS: u64 = 200;

// ---------------------------------------------------------------------------
// Deduplication
// ---------------------------------------------------------------------------

/// Some document of `s` has the id `id`.
pub open spec fn has_id(s: Seq<ScoredDocument>, id: Seq<char>) -> bool {
    exists|i: int| 0 <= i < s.len() && (#[trigger] s[i]).document.id@ == id
}

/// The first position, from `from` on, of a document with the id `id`; or the
/// length of `s`.
pub open spec fn position(s: Seq<ScoredDocument>, id: Seq<char>, from: int) -> int
    decreases s.len() - from,
{
    if from >= s.len() || s[from].document.id@ == id {
        from
    } else {
        position(s, id, from + 1)
    }
}

/// `best` with one more document: a new id is added; of two copies the one with
/// the higher score stays, and the earlier one where they are equal.
pub open spec fn with_copy(best: Seq<ScoredDocument>, x: ScoredDocument) -> Seq<ScoredDocument> {
    let p = position(best, x.document.id@, 0);
    if p >= best.len() {
        best.push(x)
    } else if x.score.above(best[p].score) {
        best.update(p, x)
    } else {
        best
    }
}

/// One copy of each document, in the order in which the ids first came.
pub open spec fn best_copies(docs: Seq<ScoredDocument>) -> Seq<ScoredDocument>
    decreases docs.len(),
{
    if docs.len() == 0 {
        Seq::empty()
    } else {
        with_copy(best_copies(docs.drop_last()), docs.last())
    }
}

proof fn lemma_position(s: Seq<ScoredDocument>, id: Seq<char>, from: int)
    requires
        0 <= from <= s.len(),
    ensures
        from <= position(s, id, from) <= s.len(),
        position(s, id, from) < s.len() ==> s[position(s, id, from)].document.id@ == id,
        forall|i: int| from <= i < position(s, id, from) ==> (#[trigger] s[i]).document.id@ != id,
    decreases s.len() - from,
{
    if from < s.len() && s[from].document.id@ != id {
        lemma_position(s, id, from + 1);
    }
}

/// Keep one copy of each document: the one with the highest score.
pub fn deduplicate_results(docs: Vec<ScoredDocument>) -> (out: Vec<ScoredDocument>)
    ensures
        out@ == best_copies(docs@),
{
    let ghost all = docs@;
    let mut best: Vec<ScoredDocument> = Vec::new();
    assert(all.take(0) =~= Seq::<ScoredDocument>::empty());
    for scored in it: docs
        invariant
            it.seq() == all,
            best@ == best_copies(all.take(it.index() as int)),
    {
        let ghost n = it.index() as int;
        assert(all.take(n + 1).drop_last() =~= all.take(n));
        assert(all.take(n + 1).last() == scored);
        let mut p: usize = 0;
        while p < best.len() && best[p].document.id != scored.document.id
            invariant
                p <= best@.len(),
                position(best@, scored.document.id@, 0) == position(
                    best@,
                    scored.document.id@,
                    p as int,
                ),
            decreases best@.len() - p,
        {
            p = p + 1;
        }
        if p >= best.len() {
            best.push(scored);
        } else if scored.score.is_above(&best[p].score) {
            best.set(p, scored);
        }
    }
    assert(all.take(all.len() as int) =~= all);
    best
}

/// The best `limit` documents, in descending order of scores.
pub open spec fn top(docs: Seq<ScoredDocument>, limit: int) -> Seq<ScoredDocument> {
    let r = ranked(docs);
    if limit < r.len() {
        r.take(limit)
    } else {
        r
    }
}

/// Put the documents in descending order of scores, all of them numbers, and keep the
/// first `limit`.
pub fn rank_results(docs: Vec<ScoredDocument>, limit: usize) -> (out: Vec<ScoredDocument>)
    requires
        all_numbers(docs@),
    ensures
        out@ == top(docs@, limit as int),
{
    let mut docs = docs;
    sort_by_score(&mut docs);
    if limit < docs.len() {
        docs.truncate(limit);
    }
    docs
}

// ---------------------------------------------------------------------------
// Gathering
// ---------------------------------------------------------------------------

/// What the nodes have found so far.
pub struct Gather {
    pub documents: Vec<ScoredDocument>,
    pub total: u64,
}

impl Gather {
    /// No node has answered.
    pub fn new() -> (g: Gather)
        ensures
            g.documents@.len() == 0,
            g.total == 0,
    {
        Gather { documents: Vec::new(), total: 0 }
    }

    /// A node has answered, or has failed to.
    pub fn on_reply(&mut self, reply: Option<SearchResult>)
        requires
            reply is Some ==> old(self).total + reply->0.total <= u64::MAX,
        ensures
            match reply {
                Some(result) => {
                    &&& final(self).documents@ == old(self).documents@ + result.documents@
                    &&& final(self).total == old(self).total + result.total
                },
                None => *final(self) == *old(self),
            },
    {
        match reply {
            Some(result) => {
                let mut more = result.documents;
                self.documents.append(&mut more);
                self.total = self.total + result.total;
            },
            None => {},
        }
    }

    /// A node of the pool has answered, or has failed to: its breaker takes note.
    pub fn on_pool_reply<C>(
        &mut self,
        pool: &mut ConnectionPool<C>,
        node_id: u64,
        reply: Option<SearchResult>,
    )
        requires
            reply is Some ==> old(self).total + reply->0.total <= u64::MAX,
            old(pool).entries@.contains_key(node_id) ==> old(
                pool,
            ).entries@[node_id].breaker.consecutive_failures < u32::MAX,
        ensures
            match reply {
                Some(result) => {
                    &&& final(self).documents@ == old(self).documents@ + result.documents@
                    &&& final(self).total == old(self).total + result.total
                    &&& old(pool).entries@.contains_key(node_id) ==> final(pool).entries@[node_id].breaker
                        == old(pool).entries@[node_id].breaker.succeeded()
                },
                None => {
                    &&& *final(self) == *old(self)
                    &&& old(pool).entries@.contains_key(node_id) ==> exists|
                        now: std::time::Instant,
                    |
                        final(pool).entries@[node_id].breaker == #[trigger] old(
                            pool,
                        ).entries@[node_id].breaker.failed(now)
                },
            },
            final(pool).config == old(pool).config,
            final(pool).entries@.dom() == old(pool).entries@.dom(),
            old(pool).entries@.contains_key(node_id) ==> final(pool).entries@[node_id].client
                == old(pool).entries@[node_id].client,
            forall|id: u64|
                id != node_id && old(pool).entries@.contains_key(id) ==> #[trigger] final(pool).entries@[id] == old(pool).entries@[id],
    {
        if reply.is_some() {
            pool.record_success(node_id);
        } else {
            pool.record_failure(node_id);
        }
        assert(pool.entries@.dom() =~= old(pool).entries@.dom());
        self.on_reply(reply);
    }

    /// The merged result of at most `limit` documents.
    pub fn finish(self, limit: usize, took_ms: u64) -> (result: SearchResult)
        requires
            all_numbers(self.documents@),
        ensures
            result.documents@ == top(best_copies(self.documents@), limit as int),
            result.total == self.total,
            result.took_ms == took_ms,
            result.aggregations@ == Map::<Seq<char>, AggregationResult>::empty(),
    {
        proof {
            lemma_best_copies(self.documents@);
        }
        let deduped = deduplicate_results(self.documents);
        let documents = rank_results(deduped, limit);
        SearchResult { documents, total: self.total, took_ms, aggregations: Table::new() }
    }
}

/// The documents of all replies, in the order in which they came.
pub open spec fn gathered(replies: Seq<Option<SearchResult>>) -> Seq<ScoredDocument>
    decreases replies.len(),
{
    if replies.len() == 0 {
        Seq::empty()
    } else {
        match replies.last() {
            Some(result) => gathered(replies.drop_last()) + result.documents@,
            None => gathered(replies.drop_last()),
        }
    }
}

/// The hits of all replies together.
pub open spec fn total_hits(replies: Seq<Option<SearchResult>>) -> int
    decreases replies.len(),
{
    if replies.len() == 0 {
        0
    } else {
        match replies.last() {
            Some(result) => total_hits(replies.drop_last()) + result.total,
            None => total_hits(replies.drop_last()),
        }
    }
}

proof fn lemma_total_hits(replies: Seq<Option<SearchResult>>, n: int)
    requires
        0 <= n <= replies.len(),
    ensures
        0 <= total_hits(replies.take(n)) <= total_hits(replies),
    decreases replies.len(),
{
    if n < replies.len() {
        lemma_total_hits(replies.drop_last(), n);
        assert(replies.drop_last().take(n) =~= replies.take(n));
    } else {
        assert(replies.take(n) =~= replies);
        if n > 0 {
            lemma_total_hits(replies.drop_last(), n - 1);
        }
    }
}

/// Merge what the nodes of a search replied; `None` stands for a node that failed or
/// was too slow.  Where there is no node to ask, the result is empty and took no time.
pub fn scatter_search(replies: Vec<Option<SearchResult>>, limit: usize, took_ms: u64) -> (result:
    SearchResult)
    requires
        all_numbers(gathered(replies@)),
        total_hits(replies@) <= u64::MAX,
    ensures
        result.documents@ == top(best_copies(gathered(replies@)), limit as int),
        result.total == total_hits(replies@),
        result.took_ms == if replies@.len() == 0 {
            0
        } else {
            took_ms
        },
        result.aggregations@ == Map::<Seq<char>, AggregationResult>::empty(),
{
    let none = replies.len() == 0;
    let ghost all = replies@;
    let mut gather = Gather::new();
    assert(gather.documents@ =~= gathered(all.take(0)));
    for reply in it: replies
        invariant
            it.seq() == all,
            total_hits(all) <= u64::MAX,
            gather.documents@ == gathered(all.take(it.index() as int)),
            gather.total == total_hits(all.take(it.index() as int)),
    {
        let ghost n = it.index() as int;
        proof {
            assert(all.take(n + 1).drop_last() =~= all.take(n));
            assert(all.take(n + 1).last() == reply);
            lemma_total_hits(all, n + 1);
        }
        gather.on_reply(reply);
    }
    assert(all.take(all.len() as int) =~= all);
    gather.finish(
        limit,
        if none {
            0
        } else {
            took_ms
        },
    )
}

// ---------------------------------------------------------------------------
// Laws
// ---------------------------------------------------------------------------

/// No two documents of `s` have the same id.
pub open spec fn distinct_ids(s: Seq<ScoredDocument>) -> bool {
    forall|i: int, j: int|
        #![trigger s[i], s[j]]
        0 <= i < j < s.len() ==> s[i].document.id@ != s[j].document.id@
}

proof fn lemma_best_copies(docs: Seq<ScoredDocument>)
    ensures
        distinct_ids(best_copies(docs)),
        forall|i: int|
            0 <= i < best_copies(docs).len() ==> docs.contains(#[trigger] best_copies(docs)[i]),
        all_numbers(docs) ==> all_numbers(best_copies(docs)),
        forall|k: int|
            0 <= k < docs.len() ==> has_id(best_copies(docs), (#[trigger] docs[k]).document.id@),
        all_numbers(docs) ==> forall|k: int, i: int|
            #![trigger docs[k], best_copies(docs)[i]]
            0 <= k < docs.len() && 0 <= i < best_copies(docs).len() && docs[k].document.id@
                == best_copies(docs)[i].document.id@ ==> docs[k].score.rank() <= best_copies(
                docs,
            )[i].score.rank(),
    decreases docs.len(),
{
    if docs.len() > 0 {
        let front = docs.drop_last();
        let x = docs.last();
        lemma_best_copies(front);
        let before = best_copies(front);
        let after = best_copies(docs);
        let id = x.document.id@;
        let p = position(before, id, 0);
        lemma_position(before, id, 0);
        assert(docs[docs.len() - 1] == x);
        assert forall|i: int| 0 <= i < after.len() implies docs.contains(#[trigger] after[i]) by {
            if after[i] == x {
                assert(docs[docs.len() - 1] == x);
            } else {
                assert(after[i] == before[i]);
                assert(front.contains(before[i]));
                let k = choose|k: int| 0 <= k < front.len() && front[k] == before[i];
                assert(docs[k] == before[i]);
            }
        }
        assert forall|i: int, j: int|
            #![trigger after[i], after[j]]
            0 <= i < j < after.len() implies after[i].document.id@ != after[j].document.id@ by {
            if j < before.len() {
                assert(before[i].document.id@ != before[j].document.id@);
            } else {
                assert(before[i].document.id@ != id);
            }
        }
        if all_numbers(docs) {
            assert forall|k: int| 0 <= k < front.len() implies !(#[trigger] front[k]).score.nan() by {
                assert(docs[k] == front[k]);
            }
            assert forall|i: int| 0 <= i < after.len() implies !(#[trigger] after[i]).score.nan() by {
                let k = choose|k: int| 0 <= k < docs.len() && docs[k] == after[i];
                assert(docs.contains(after[i]));
                assert(!docs[k].score.nan());
            }
        }
        assert forall|k: int| 0 <= k < docs.len() implies has_id(
            after,
            (#[trigger] docs[k]).document.id@,
        ) by {
            if k < front.len() {
                assert(front[k] == docs[k]);
                assert(has_id(before, front[k].document.id@));
                let i = choose|i: int|
                    0 <= i < before.len() && (#[trigger] before[i]).document.id@
                        == front[k].document.id@;
                assert(after[i].document.id@ == docs[k].document.id@);
            } else if p < before.len() {
                assert(after[p].document.id@ == id);
            } else {
                assert(after[before.len() as int].document.id@ == id);
            }
        }
        if all_numbers(docs) {
            assert forall|k: int, i: int|
                #![trigger docs[k], after[i]]
                0 <= k < docs.len() && 0 <= i < after.len() && docs[k].document.id@
                    == after[i].document.id@ implies docs[k].score.rank()
                <= after[i].score.rank() by {
                assert(!after[i].score.nan());
                if k < front.len() {
                    assert(front[k] == docs[k]);
                    if i < before.len() {
                        assert(before[i].document.id@ == after[i].document.id@);
                        assert(front[k].score.rank() <= before[i].score.rank());
                    } else {
                        assert(has_id(before, front[k].document.id@));
                    }
                } else {
                    assert(docs[k] == x);
                    if i < before.len() {
                        assert(before[i].document.id@ == id);
                        if i != p {
                            if i < p {
                                assert(false);
                            } else {
                                assert(before[p].document.id@ != before[i].document.id@);
                            }
                        }
                        assert(!before[p].score.nan());
                    }
                }
            }
        }
    }
}

/// Deduplication keeps every id once, invents nothing, and of each document keeps
/// a copy whose score no other copy exceeds.
pub proof fn dedup_keeps_the_best_copy(docs: Seq<ScoredDocument>)
    requires
        all_numbers(docs),
    ensures
        distinct_ids(best_copies(docs)),
        forall|i: int|
            0 <= i < best_copies(docs).len() ==> docs.contains(#[trigger] best_copies(docs)[i]),
        forall|k: int|
            0 <= k < docs.len() ==> has_id(best_copies(docs), (#[trigger] docs[k]).document.id@),
        forall|k: int, i: int|
            #![trigger docs[k], best_copies(docs)[i]]
            0 <= k < docs.len() && 0 <= i < best_copies(docs).len() && docs[k].document.id@
                == best_copies(docs)[i].document.id@ ==> docs[k].score.rank() <= best_copies(
                docs,
            )[i].score.rank(),
{
    lemma_best_copies(docs);
}

/// Deduplicating what is deduplicated changes nothing.
pub proof fn dedup_is_idempotent(docs: Seq<ScoredDocument>)
    ensures
        best_copies(best_copies(docs)) == best_copies(docs),
{
    lemma_best_copies(docs);
    lemma_distinct_stay(best_copies(docs));
}

proof fn lemma_distinct_stay(s: Seq<ScoredDocument>)
    requires
        distinct_ids(s),
    ensures
        best_copies(s) == s,
    decreases s.len(),
{
    if s.len() > 0 {
        let front = s.drop_last();
        assert(distinct_ids(front));
        lemma_distinct_stay(front);
        lemma_position(front, s.last().document.id@, 0);
        let p = position(front, s.last().document.id@, 0);
        if p < front.len() {
            assert(s[p].document.id@ != s[s.len() - 1].document.id@);
        }
        assert(front.push(s.last()) =~= s);
    } else {
        assert(best_copies(s) =~= s);
    }
}

/// The result of a ranking is descending, no longer than its limit, and nothing
/// that it leaves out scores higher than what it holds.
pub proof fn ranking_keeps_the_top(docs: Seq<ScoredDocument>, limit: int)
    requires
        0 <= limit,
    ensures
        top(docs, limit).len() <= limit,
        descending(top(docs, limit)),
        top(docs, limit).len() == if docs.len() < limit {
            docs.len() as int
        } else {
            limit
        },
        forall|i: int, j: int|
            #![trigger top(docs, limit)[i], ranked(docs)[j]]
            0 <= i < top(docs, limit).len() && top(docs, limit).len() <= j < docs.len() ==> top(
                docs,
                limit,
            )[i].score.rank() >= ranked(docs)[j].score.rank(),
{
    ranking_is_a_descending_permutation(docs);
    let r = ranked(docs);
    let t = top(docs, limit);
    assert forall|i: int, j: int|
        #![trigger t[i], t[j]]
        0 <= i < j < t.len() implies crate::model::ranking::Ranked::rank(&t[i])
        >= crate::model::ranking::Ranked::rank(&t[j]) by {
        assert(t[i] == r[i] && t[j] == r[j]);
    }
    assert forall|i: int, j: int|
        #![trigger t[i], r[j]]
        0 <= i < t.len() && t.len() <= j < docs.len() implies t[i].score.rank()
        >= r[j].score.rank() by {
        assert(t[i] == r[i]);
        assert(crate::model::ranking::Ranked::rank(&r[i]) >= crate::model::ranking::Ranked::rank(
            &r[j],
        ));
    }
}

/// What several replies bring is what each brings, one behind the other, and their hits
/// count together; a node that did not answer brings nothing.
pub proof fn replies_are_put_together(
    a: Seq<Option<SearchResult>>,
    b: Seq<Option<SearchResult>>,
    reply: SearchResult,
)
    ensures
        gathered(a + b) == gathered(a) + gathered(b),
        total_hits(a + b) == total_hits(a) + total_hits(b),
        gathered(seq![Some(reply)]) == reply.documents@,
        total_hits(seq![Some(reply)]) == reply.total,
        gathered(seq![None]) == Seq::<ScoredDocument>::empty(),
        total_hits(seq![None]) == 0,
    decreases b.len(),
{
    let none = Seq::<Option<SearchResult>>::empty();
    assert(gathered(none) =~= Seq::<ScoredDocument>::empty());
    assert(total_hits(none) == 0);
    assert(seq![Some(reply)].drop_last() =~= none);
    assert(seq![Some(reply)].last() == Some(reply));
    assert(seq![None::<SearchResult>].drop_last() =~= none);
    assert(seq![None::<SearchResult>].last() == None::<SearchResult>);
    assert(gathered(seq![Some(reply)]) =~= reply.documents@);
    if b.len() == 0 {
        assert(a + b =~= a);
        assert(gathered(a) + gathered(b) =~= gathered(a));
    } else {
        assert((a + b).drop_last() =~= a + b.drop_last());
        assert((a + b).last() == b.last());
        replies_are_put_together(a, b.drop_last(), reply);
        assert(gathered(a + b) =~= gathered(a) + gathered(b));
    }
}

/// The copies that are kept stand in the order in which their documents first came: the
/// place at which the document of each first came, each behind the one before.
pub proof fn copies_keep_the_order_of_arrival(docs: Seq<ScoredDocument>) -> (at: Seq<int>)
    ensures
        at.len() == best_copies(docs).len(),
        forall|i: int|
            0 <= i < at.len() ==> 0 <= #[trigger] at[i] < docs.len() && docs[at[i]].document.id@
                == best_copies(docs)[i].document.id@,
        forall|i: int, j: int| 0 <= i < j < at.len() ==> #[trigger] at[i] < #[trigger] at[j],
        forall|i: int, k: int|
            #![trigger at[i], docs[k]]
            0 <= i < at.len() && 0 <= k < at[i] ==> docs[k].document.id@
                != docs[at[i]].document.id@,
    decreases docs.len(),
{
    if docs.len() == 0 {
        Seq::empty()
    } else {
        let front = docs.drop_last();
        let x = docs.last();
        let best = best_copies(front);
        let before = copies_keep_the_order_of_arrival(front);
        lemma_best_copies(front);
        lemma_position(best, x.document.id@, 0);
        let p = position(best, x.document.id@, 0);
        let at = if p >= best.len() {
            before.push(front.len() as int)
        } else {
            before
        };
        let all = best_copies(docs);
        assert forall|i: int| 0 <= i < at.len() implies 0 <= #[trigger] at[i] < docs.len()
            && docs[at[i]].document.id@ == all[i].document.id@ by {
            if i < before.len() {
                assert(at[i] == before[i]);
                assert(docs[at[i]] == front[before[i]]);
                assert(all[i].document.id@ == best[i].document.id@);
            }
        }
        assert forall|i: int, j: int| 0 <= i < j < at.len() implies #[trigger] at[i]
            < #[trigger] at[j] by {
            assert(at[i] == before[i]);
            if j < before.len() {
                assert(at[j] == before[j]);
            }
        }
        assert forall|i: int, k: int|
            #![trigger at[i], docs[k]]
            0 <= i < at.len() && 0 <= k < at[i] implies docs[k].document.id@
            != docs[at[i]].document.id@ by {
            assert(docs[k] == front[k]);
            if i < before.len() {
                assert(at[i] == before[i]);
                assert(docs[at[i]] == front[before[i]]);
            } else if front[k].document.id@ == x.document.id@ {
                assert(has_id(best, front[k].document.id@));
                let n = choose|n: int|
                    0 <= n < best.len() && (#[trigger] best[n]).document.id@
                        == x.document.id@;
                assert(best[n].document.id@ != x.document.id@);
            }
        }
        at
    }
}

/// Of copies with the same score the one that came first is kept.
pub proof fn the_first_of_equal_copies_is_kept(docs: Seq<ScoredDocument>, i: int)
    requires
        all_numbers(docs),
        0 <= i < best_copies(docs).len(),
    ensures
        exists|k: int|
            {
                &&& 0 <= k < docs.len()
                &&& #[trigger] docs[k] == best_copies(docs)[i]
                &&& forall|j: int|
                    0 <= j < k && (#[trigger] docs[j]).document.id@ == docs[k].document.id@
                        ==> docs[j].score.rank() < docs[k].score.rank()
            },
    decreases docs.len(),
{
    let front = docs.drop_last();
    let x = docs.last();
    let n = front.len() as int;
    let best = best_copies(front);
    let all = best_copies(docs);
    assert(all_numbers(front)) by {
        assert forall|j: int| 0 <= j < front.len() implies !(#[trigger] front[j]).score.nan() by {
            assert(front[j] == docs[j]);
        }
    }
    lemma_best_copies(front);
    lemma_position(best, x.document.id@, 0);
    let p = position(best, x.document.id@, 0);
    assert(docs[n] == x);
    if i < best.len() && all[i] == best[i] {
        the_first_of_equal_copies_is_kept(front, i);
        let k = choose|k: int|
            {
                &&& 0 <= k < front.len()
                &&& #[trigger] front[k] == best[i]
                &&& forall|j: int|
                    0 <= j < k && (#[trigger] front[j]).document.id@ == front[k].document.id@
                        ==> front[j].score.rank() < front[k].score.rank()
            };
        assert(docs[k] == all[i]);
        assert forall|j: int|
            0 <= j < k && (#[trigger] docs[j]).document.id@ == docs[k].document.id@ implies docs[j].score.rank()
            < docs[k].score.rank() by {
            assert(front[j] == docs[j]);
        }
    } else {
        assert(all[i] == x);
        assert forall|j: int|
            0 <= j < n && (#[trigger] docs[j]).document.id@ == docs[n].document.id@ implies docs[j].score.rank()
            < docs[n].score.rank() by {
            assert(front[j] == docs[j]);
            assert(has_id(best, front[j].document.id@));
            assert(p < best.len()) by {
                let m = choose|m: int|
                    0 <= m < best.len() && (#[trigger] best[m]).document.id@
                        == front[j].document.id@;
                if p >= best.len() {
                    assert(best[m].document.id@ != x.document.id@);
                }
            }
            assert(front[j].score.rank() <= best[p].score.rank());
        }
    }
}

/// A node has a fifth of a second to answer.
pub proof fn nodes_have_their_time()
    ensures
        NODE_TIMEOUT_MS == 200,
{
}

} // verus!
