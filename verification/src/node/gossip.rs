//! Gossip: how the nodes' views of the cluster spread.
//!
//! Every node keeps, for each node it has heard of, a status and the time of
//! that status.  When two views meet, the later status wins.

use vstd::prelude::*;

use crate::model::cluster::NodeStatus;
use crate::table::{distinct_keys, Table};

verus! {

/// One node's status in a gossip message.
#[derive(Clone, Copy, Debug, PartialEq, Eq, Structural)]
pub struct GossipEntry {
    pub node_id: u64,
    pub status: NodeStatus,
    /// A logical time: the greater is the later.
    pub timestamp: u64,
}

/// One node's view of the cluster.
#[derive(Debug)]
pub struct GossipMessage {
    pub from: u64,
    pub cluster_view: Vec<GossipEntry>,
}

/// A view of the cluster: each node's status with its time.
pub type ClusterView = Map<u64, (NodeStatus, u64)>;

/// The view behind one entry of a message: a later status replaces what was
/// known.
pub open spec fn merged_entry(view: ClusterView, e: GossipEntry) -> ClusterView {
    if view.contains_key(e.node_id) && e.timestamp <= view[e.node_id].1 {
        view
    } else {
        view.insert(e.node_id, (e.status, e.timestamp))
    }
}

/// The view behind the entries of a message, taken one after the other.
pub open spec fn merged(view: ClusterView, entries: Seq<GossipEntry>) -> ClusterView
    decreases entries.len(),
{
    if entries.len() == 0 {
        view
    } else {
        merged_entry(merged(view, entries.drop_last()), entries.last())
    }
}

/// An entry changes the status of its node: the node was unknown, or the entry
/// is later and says something else.
pub open spec fn changes(view: ClusterView, e: GossipEntry) -> bool {
    !view.contains_key(e.node_id) || (e.timestamp > view[e.node_id].1 && e.status
        != view[e.node_id].0)
}

/// The nodes whose status the entries of a message change, one after the other.
pub open spec fn changed_nodes(view: ClusterView, entries: Seq<GossipEntry>) -> Seq<u64>
    decreases entries.len(),
{
    if entries.len() == 0 {
        Seq::empty()
    } else {
        let before = merged(view, entries.drop_last());
        let rest = changed_nodes(view, entries.drop_last());
        if changes(before, entries.last()) {
            rest.push(entries.last().node_id)
        } else {
            rest
        }
    }
}

/// A node whose status has changed is known.
pub proof fn changed_nodes_are_known(view: ClusterView, entries: Seq<GossipEntry>, id: u64)
    requires
        changed_nodes(view, entries).contains(id),
    ensures
        merged(view, entries).contains_key(id),
    decreases entries.len(),
{
    if entries.len() > 0 {
        let rest = changed_nodes(view, entries.drop_last());
        let all = changed_nodes(view, entries);
        let i = choose|i: int| 0 <= i < all.len() && all[i] == id;
        if i < rest.len() {
            assert(rest[i] == id);
            changed_nodes_are_known(view, entries.drop_last(), id);
        }
    }
}

/// A node's gossip state.
pub struct GossipManager {
    state: Table<u64, (NodeStatus, u64)>,
    local_node_id: u64,
}

impl GossipManager {
    /// The view that the manager keeps.
    pub closed spec fn view(&self) -> ClusterView {
        self.state@
    }

    /// The order in which the nodes became known.
    pub closed spec fn known(&self) -> Seq<(u64, (NodeStatus, u64))> {
        self.state.entries()
    }

    /// The node that the manager works for.
    pub closed spec fn local(&self) -> u64 {
        self.local_node_id
    }

    /// A manager that has heard of no node.
    pub fn new(local_node_id: u64) -> (g: Self)
        ensures
            g.view() == ClusterView::empty(),
            g.local() == local_node_id,
    {
        GossipManager { state: Table::new(), local_node_id }
    }

    /// Take note of a status that this node has observed.  An observation as old
    /// as what is known still counts.
    pub fn update_local(&mut self, node_id: u64, status: NodeStatus, timestamp: u64)
        ensures
            final(self).local() == old(self).local(),
            final(self).view() == if old(self).view().contains_key(node_id) && timestamp < old(
                self,
            ).view()[node_id].1 {
                old(self).view()
            } else {
                old(self).view().insert(node_id, (status, timestamp))
            },
    {
        let newer = match self.state.get(&node_id) {
            Some(known) => timestamp >= known.1,
            None => true,
        };
        if newer {
            self.state.insert(node_id, (status, timestamp));
        }
    }

    /// Merge a message into the view.  The result lists the nodes whose status
    /// changed.
    pub fn merge(&mut self, message: &GossipMessage) -> (changed: Vec<u64>)
        ensures
            final(self).local() == old(self).local(),
            final(self).view() == merged(old(self).view(), message.cluster_view@),
            changed@ == changed_nodes(old(self).view(), message.cluster_view@),
    {
        let ghost entries = message.cluster_view@;
        let ghost before = self.view();
        let mut changed: Vec<u64> = Vec::new();
        let mut i: usize = 0;
        assert(entries.take(0) =~= Seq::<GossipEntry>::empty());
        while i < message.cluster_view.len()
            invariant
                entries == message.cluster_view@,
                i <= entries.len(),
                self.local() == old(self).local(),
                self.view() == merged(before, entries.take(i as int)),
                changed@ == changed_nodes(before, entries.take(i as int)),
            decreases entries.len() - i,
        {
            let e = message.cluster_view[i];
            proof {
                let next = entries.take(i + 1);
                assert(next.drop_last() =~= entries.take(i as int));
                assert(next.last() == e);
            }
            let known: Option<(NodeStatus, u64)> = match self.state.get(&e.node_id) {
                Some(k) => Some(*k),
                None => None,
            };
            let should_update = match known {
                Some(k) => e.timestamp > k.1,
                None => true,
            };
            if should_update {
                let same_status = match known {
                    Some(k) => k.0 == e.status,
                    None => false,
                };
                self.state.insert(e.node_id, (e.status, e.timestamp));
                if !same_status {
                    changed.push(e.node_id);
                }
            }
            i = i + 1;
        }
        assert(entries.take(i as int) =~= entries);
        changed
    }

    /// The message that tells this node's view.
    pub fn build_message(&self) -> (m: GossipMessage)
        ensures
            m.from == self.local(),
            tells(m.cluster_view@, self.view()),
            m.cluster_view@.len() == self.view().dom().len(),
    {
        let n: usize = self.state.len();
        let mut out: Vec<GossipEntry> = Vec::new();
        let mut i: usize = 0;
        while i < n
            invariant
                n == self.state.entries().len(),
                i <= n,
                out@.len() == i,
                forall|j: int|
                    0 <= j < i ==> (#[trigger] out@[j]) == (GossipEntry {
                        node_id: self.state.entries()[j].0,
                        status: self.state.entries()[j].1.0,
                        timestamp: self.state.entries()[j].1.1,
                    }),
                forall|j: int|
                    0 <= j < i ==> self.view().contains_key((#[trigger] out@[j]).node_id)
                        && self.view()[out@[j].node_id] == (out@[j].status, out@[j].timestamp),
            decreases n - i,
        {
            let (id, known) = self.state.entry(i);
            out.push(GossipEntry { node_id: *id, status: known.0, timestamp: known.1 });
            i = i + 1;
        }
        proof {
            assert forall|k: u64| self.view().contains_key(k) implies exists|j: int|
                0 <= j < out@.len() && (#[trigger] out@[j]).node_id == k by {
                let j = crate::table::position_of(self.state.entries(), k);
                assert(crate::table::has_key(self.state.entries(), k));
                assert(self.state.entries()[j].0@ == k);
                assert(out@[j].node_id == k);
            }
            assert forall|a: int, b: int|
                #![trigger out@[a], out@[b]]
                0 <= a < b < out@.len() implies out@[a].node_id != out@[b].node_id by {
                assert(self.state.entries()[a].0@ != self.state.entries()[b].0@);
            }
        }
        GossipMessage { from: self.local_node_id, cluster_view: out }
    }

    /// What is known of a node.
    pub fn status_of(&self, node_id: u64) -> (r: Option<(NodeStatus, u64)>)
        ensures
            match r {
                Some(known) => self.view().contains_key(node_id) && known == self.view()[node_id],
                None => !self.view().contains_key(node_id),
            },
    {
        match self.state.get(&node_id) {
            Some(known) => Some(*known),
            None => None,
        }
    }

    /// A node that may be gossiped with: another one, and not offline.
    pub open spec fn eligible(&self, id: u64) -> bool {
        self.view().contains_key(id) && id != self.local() && self.view()[id].0
            != NodeStatus::Offline
    }

    /// Up to `fanout` nodes to gossip with: other ones that are not offline, each
    /// once, and as many of them as there are.
    pub fn select_gossip_targets(&self, fanout: usize) -> (targets: Vec<u64>)
        ensures
            targets@.len() <= fanout,
            targets@.no_duplicates(),
            forall|i: int| 0 <= i < targets@.len() ==> self.eligible(#[trigger] targets@[i]),
            targets@.len() < fanout ==> forall|id: u64| #[trigger]
                self.eligible(id) ==> targets@.contains(id),
    {
        let n: usize = self.state.len();
        let mut targets: Vec<u64> = Vec::new();
        let mut i: usize = 0;
        while i < n && targets.len() < fanout
            invariant
                n == self.state.entries().len(),
                i <= n,
                distinct_keys(self.state.entries()),
                targets@.len() <= fanout,
                targets@.no_duplicates(),
                forall|j: int| 0 <= j < targets@.len() ==> self.eligible(#[trigger] targets@[j]),
                forall|j: int|
                    0 <= j < targets@.len() ==> exists|p: int|
                        0 <= p < i && #[trigger] self.state.entries()[p].0 == #[trigger] targets@[j],
                forall|p: int|
                    0 <= p < i && self.eligible(#[trigger] self.state.entries()[p].0)
                        ==> targets@.contains(self.state.entries()[p].0),
            decreases n - i,
        {
            let (id, known) = self.state.entry(i);
            let ghost before = targets@;
            if *id != self.local_node_id && known.0 != NodeStatus::Offline {
                assert(self.eligible(*id));
                assert(!targets@.contains(*id)) by {
                    if targets@.contains(*id) {
                        let j = choose|j: int| 0 <= j < targets@.len() && targets@[j] == *id;
                        let p = choose|p: int|
                            0 <= p < i && #[trigger] self.state.entries()[p].0 == targets@[j];
                        assert(self.state.entries()[p].0@ != self.state.entries()[i as int].0@);
                    }
                }
                targets.push(*id);
                assert forall|j: int| 0 <= j < targets@.len() implies exists|p: int|
                    0 <= p < i + 1 && #[trigger] self.state.entries()[p].0
                        == #[trigger] targets@[j] by {
                    if j == before.len() {
                        assert(self.state.entries()[i as int].0 == targets@[j]);
                    } else {
                        assert(targets@[j] == before[j]);
                    }
                }
                assert forall|p: int|
                    0 <= p < i + 1 && self.eligible(
                        #[trigger] self.state.entries()[p].0,
                    ) implies targets@.contains(self.state.entries()[p].0) by {
                    if p < i {
                        let j = choose|j: int|
                            0 <= j < before.len() && before[j] == self.state.entries()[p].0;
                        assert(before.contains(self.state.entries()[p].0));
                        assert(targets@[j] == before[j]);
                    } else {
                        assert(targets@[before.len() as int] == *id);
                    }
                }
            }
            i = i + 1;
        }
        proof {
            if targets@.len() < fanout {
                assert forall|id: u64| #[trigger] self.eligible(id) implies targets@.contains(
                    id,
                ) by {
                    let p = crate::table::position_of(self.state.entries(), id);
                    assert(crate::table::has_key(self.state.entries(), id));
                    assert(self.state.entries()[p].0@ == id);
                    assert(self.eligible(self.state.entries()[p].0));
                }
            }
        }
        targets
    }
}

// ---------------------------------------------------------------------------
// Laws
// ---------------------------------------------------------------------------

/// `entries` tell the view `view`: each of its nodes once, with what is known of
/// it.
pub open spec fn tells(entries: Seq<GossipEntry>, view: ClusterView) -> bool {
    &&& forall|i: int, j: int|
        #![trigger entries[i], entries[j]]
        0 <= i < j < entries.len() ==> entries[i].node_id != entries[j].node_id
    &&& forall|i: int|
        0 <= i < entries.len() ==> view.contains_key((#[trigger] entries[i]).node_id)
            && view[entries[i].node_id] == (entries[i].status, entries[i].timestamp)
    &&& forall|k: u64| #[trigger]
        view.contains_key(k) ==> exists|i: int|
            0 <= i < entries.len() && (#[trigger] entries[i]).node_id == k
}

/// Two views joined: the later status of each node; `a` where both are equally
/// late.
pub open spec fn join(a: ClusterView, b: ClusterView) -> ClusterView {
    Map::new(
        |k: u64| a.contains_key(k) || b.contains_key(k),
        |k: u64|
            if a.contains_key(k) && (!b.contains_key(k) || b[k].1 <= a[k].1) {
                a[k]
            } else {
                b[k]
            },
    )
}

/// The views agree wherever they are equally late.
pub open spec fn no_conflict(a: ClusterView, b: ClusterView) -> bool {
    forall|k: u64|
        a.contains_key(k) && b.contains_key(k) && (#[trigger] a[k]).1 == (#[trigger] b[k]).1
            ==> a[k] == b[k]
}

/// Merging a message that tells a view joins that view, whatever the order of
/// its entries.
pub proof fn merge_is_join(view: ClusterView, other: ClusterView, entries: Seq<GossipEntry>)
    requires
        tells(entries, other),
    ensures
        merged(view, entries) == join(view, other),
{
    lemma_merge_prefix(view, other, entries, entries.len() as int);
    assert(entries.take(entries.len() as int) =~= entries);
    let m = merged(view, entries);
    assert forall|k: u64| m.contains_key(k) == join(view, other).contains_key(k) && (
    m.contains_key(k) ==> m[k] == join(view, other)[k]) by {
        if other.contains_key(k) {
            let i = choose|i: int| 0 <= i < entries.len() && (#[trigger] entries[i]).node_id == k;
            assert(told(entries, entries.len() as int, k));
        } else {
            assert(!told(entries, entries.len() as int, k));
        }
    }
    assert(m =~= join(view, other));
}

/// One of the first `n` entries is about `k`.
spec fn told(entries: Seq<GossipEntry>, n: int, k: u64) -> bool {
    exists|i: int| 0 <= i < n && (#[trigger] entries[i]).node_id == k
}

proof fn lemma_merge_prefix(
    view: ClusterView,
    other: ClusterView,
    entries: Seq<GossipEntry>,
    n: int,
)
    requires
        tells(entries, other),
        0 <= n <= entries.len(),
    ensures
        forall|k: u64|
            #![trigger merged(view, entries.take(n)).contains_key(k)]
            {
                let m = merged(view, entries.take(n));
                if told(entries, n, k) {
                    m.contains_key(k) && m[k] == join(view, other)[k]
                } else {
                    m.contains_key(k) == view.contains_key(k) && (view.contains_key(k) ==> m[k]
                        == view[k])
                }
            },
    decreases n,
{
    let t = entries.take(n);
    if n == 0 {
        assert(t =~= Seq::<GossipEntry>::empty());
        assert(forall|k: u64| !told(entries, 0, k));
    } else {
        lemma_merge_prefix(view, other, entries, n - 1);
        assert(t.drop_last() =~= entries.take(n - 1));
        let e = entries[n - 1];
        assert(t.last() == e);
        let before = merged(view, entries.take(n - 1));
        let m = merged(view, t);
        assert(!told(entries, n - 1, e.node_id)) by {
            if told(entries, n - 1, e.node_id) {
                let i = choose|i: int|
                    0 <= i < n - 1 && (#[trigger] entries[i]).node_id == e.node_id;
                assert(entries[i].node_id != entries[n - 1].node_id);
            }
        }
        assert forall|k: u64|
            #![trigger m.contains_key(k)]
            if told(entries, n, k) {
                m.contains_key(k) && m[k] == join(view, other)[k]
            } else {
                m.contains_key(k) == view.contains_key(k) && (view.contains_key(k) ==> m[k]
                    == view[k])
            } by {
            assert(before.contains_key(k) || !before.contains_key(k));
            if k == e.node_id {
                assert(entries[n - 1].node_id == k);
                assert(told(entries, n, k));
                assert(before.contains_key(k) == view.contains_key(k));
            } else {
                assert(told(entries, n, k) == told(entries, n - 1, k)) by {
                    if told(entries, n, k) {
                        let i = choose|i: int|
                            0 <= i < n && (#[trigger] entries[i]).node_id == k;
                        assert(entries[i].node_id == k);
                    }
                    if told(entries, n - 1, k) {
                        let i = choose|i: int|
                            0 <= i < n - 1 && (#[trigger] entries[i]).node_id == k;
                        assert(entries[i].node_id == k);
                    }
                }
            }
        }
    }
}

/// The view knows of every entry's node something at least as late.
pub open spec fn covers(view: ClusterView, entries: Seq<GossipEntry>) -> bool {
    forall|i: int|
        0 <= i < entries.len() ==> view.contains_key((#[trigger] entries[i]).node_id)
            && view[entries[i].node_id].1 >= entries[i].timestamp
}

/// The later status wins, whatever the message: behind a merge nothing is known of an
/// older time than the message told, nor than was known before.
pub proof fn merge_keeps_the_latest(view: ClusterView, entries: Seq<GossipEntry>)
    ensures
        forall|k: u64| #[trigger]
            view.contains_key(k) ==> merged(view, entries).contains_key(k) && merged(
                view,
                entries,
            )[k].1 >= view[k].1,
        covers(merged(view, entries), entries),
    decreases entries.len(),
{
    if entries.len() > 0 {
        let front = entries.drop_last();
        let e = entries.last();
        merge_keeps_the_latest(view, front);
        let before = merged(view, front);
        let after = merged(view, entries);
        assert forall|k: u64| #[trigger] view.contains_key(k) implies after.contains_key(k)
            && after[k].1 >= view[k].1 by {
            assert(before.contains_key(k) && before[k].1 >= view[k].1);
        }
        assert forall|i: int| 0 <= i < entries.len() implies after.contains_key(
            (#[trigger] entries[i]).node_id,
        ) && after[entries[i].node_id].1 >= entries[i].timestamp by {
            if i < front.len() {
                assert(front[i] == entries[i]);
            }
        }
    }
}

proof fn lemma_covered(view: ClusterView, entries: Seq<GossipEntry>)
    requires
        covers(view, entries),
    ensures
        merged(view, entries) == view,
    decreases entries.len(),
{
    if entries.len() > 0 {
        let front = entries.drop_last();
        assert forall|i: int| 0 <= i < front.len() implies view.contains_key(
            (#[trigger] front[i]).node_id,
        ) && view[front[i].node_id].1 >= front[i].timestamp by {
            assert(front[i] == entries[i]);
        }
        lemma_covered(view, front);
        assert(entries[entries.len() - 1] == entries.last());
    }
}

/// Hearing the same message again changes nothing, whatever the message.
pub proof fn merge_is_idempotent(view: ClusterView, entries: Seq<GossipEntry>)
    ensures
        merged(merged(view, entries), entries) == merged(view, entries),
{
    merge_keeps_the_latest(view, entries);
    lemma_covered(merged(view, entries), entries);
}

/// Two nodes that tell each other their views end up with the same view, unless
/// they disagree about one moment.
pub proof fn exchange_converges(
    a: ClusterView,
    b: ClusterView,
    from_a: Seq<GossipEntry>,
    from_b: Seq<GossipEntry>,
)
    requires
        tells(from_a, a),
        tells(from_b, b),
        no_conflict(a, b),
    ensures
        merged(a, from_b) == merged(b, from_a),
{
    merge_is_join(a, b, from_b);
    merge_is_join(b, a, from_a);
    assert forall|k: u64| join(a, b).contains_key(k) implies join(a, b)[k] == join(b, a)[k] by {
        if a.contains_key(k) && b.contains_key(k) && a[k].1 == b[k].1 {
            assert(a[k] == b[k]);
        }
    }
    assert(join(a, b) =~= join(b, a));
}

/// The order in which views come in does not matter.
pub proof fn join_is_associative(a: ClusterView, b: ClusterView, c: ClusterView)
    ensures
        join(join(a, b), c) == join(a, join(b, c)),
{
    assert(join(join(a, b), c) =~= join(a, join(b, c)));
}

/// A later status of a node replaces what is known of it, an earlier or equally late one does
/// not, and nothing changes of the other nodes.
pub proof fn later_news_replace_earlier(view: ClusterView, e: GossipEntry, other: u64)
    requires
        other != e.node_id,
    ensures
        !view.contains_key(e.node_id) || view[e.node_id].1 < e.timestamp ==> merged_entry(
            view,
            e,
        ).contains_key(e.node_id) && merged_entry(view, e)[e.node_id] == (e.status, e.timestamp),
        view.contains_key(e.node_id) && view[e.node_id].1 >= e.timestamp ==> merged_entry(view, e)
            == view,
        merged_entry(view, e).contains_key(other) <==> view.contains_key(other),
        view.contains_key(other) ==> merged_entry(view, e)[other] == view[other],
        merged(view, seq![e]) == merged_entry(view, e),
{
    assert(seq![e].drop_last() =~= Seq::<GossipEntry>::empty());
    assert(merged(view, Seq::<GossipEntry>::empty()) == view);
    assert(seq![e].last() == e);
}

/// Two messages, one behind the other, are one message.
pub proof fn messages_are_merged_in_turn(
    view: ClusterView,
    a: Seq<GossipEntry>,
    b: Seq<GossipEntry>,
)
    ensures
        merged(view, a + b) == merged(merged(view, a), b),
        changed_nodes(view, a + b) == changed_nodes(view, a) + changed_nodes(merged(view, a), b),
    decreases b.len(),
{
    if b.len() == 0 {
        assert(a + b =~= a);
        assert(changed_nodes(view, a) + changed_nodes(merged(view, a), b) =~= changed_nodes(
            view,
            a,
        ));
    } else {
        assert((a + b).drop_last() =~= a + b.drop_last());
        assert((a + b).last() == b.last());
        messages_are_merged_in_turn(view, a, b.drop_last());
        assert(changed_nodes(view, a + b) =~= changed_nodes(view, a) + changed_nodes(
            merged(view, a),
            b,
        ));
    }
}

/// A node has changed where it was not known, or where a later entry says another status.
pub proof fn changes_are_told(view: ClusterView, e: GossipEntry)
    ensures
        changes(view, e) <==> {
            ||| !view.contains_key(e.node_id)
            ||| merged_entry(view, e)[e.node_id].0 != view[e.node_id].0
        },
        changes(view, e) ==> changed_nodes(view, seq![e]) == seq![e.node_id],
        !changes(view, e) ==> changed_nodes(view, seq![e]).len() == 0,
{
    let none = Seq::<GossipEntry>::empty();
    assert(seq![e].drop_last() =~= none);
    assert(seq![e].last() == e);
    assert(merged(view, none) == view);
    assert(changed_nodes(view, none) =~= Seq::<u64>::empty());
    assert(changes(view, e) ==> changed_nodes(view, seq![e]) =~= seq![e.node_id]);
}

/// A node may be gossiped with where it is known, is another one and is not offline.
pub proof fn other_nodes_that_are_there_hear_gossip(g: GossipManager, id: u64)
    ensures
        g.eligible(id) ==> g.view().contains_key(id) && id != g.local() && g.view()[id].0
            != NodeStatus::Offline,
        g.view().contains_key(id) && id != g.local() && g.view()[id].0 != NodeStatus::Offline
            ==> g.eligible(id),
{
}

/// A message that tells a view tells of each of its nodes, once and as the view has it, and
/// of no other.
pub proof fn messages_tell_the_view(entries: Seq<GossipEntry>, view: ClusterView, id: u64)
    requires
        tells(entries, view),
    ensures
        view.contains_key(id) <==> exists|i: int|
            0 <= i < entries.len() && (#[trigger] entries[i]).node_id == id,
        forall|i: int|
            0 <= i < entries.len() && (#[trigger] entries[i]).node_id == id ==> view[id] == (
                entries[i].status,
                entries[i].timestamp,
            ),
        forall|i: int, j: int|
            #![trigger entries[i], entries[j]]
            0 <= i < j < entries.len() ==> entries[i].node_id != entries[j].node_id,
{
}

} // verus!
