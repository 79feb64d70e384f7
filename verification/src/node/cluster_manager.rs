//! Membership, health and failover of the cluster's nodes.
//!
//! The node pings its peers and reports how that went; the manager keeps each
//! peer's health, the heartbeats from which a peer's failure is suspected, and
//! this node's view of the cluster for gossip.

use vstd::prelude::*;

use dashmap::DashMap;
use std::hash::RandomState;

use crate::clock::{elapsed_since, Span};
use crate::model::cluster::{name_of_node, node_name, NodeAddress, NodeInfo, NodeStatus};
use crate::model::document::Document;
use crate::model::error::DbError;
use crate::node::gossip::{
    changed_nodes, changed_nodes_are_known, merged, tells, ClusterView, GossipManager,
    GossipMessage,
};
use crate::table::Table;
use crate::text;

verus! {

/// Milliseconds between two rounds of health checks.
pub const HEALTH_CHECK_INTERVAL_MS: u64 = 1_000;

/// Failed probes in a row that take a node offline.
pub const FAILURE_THRESHOLD: u8 = 3;

/// Milliseconds between two rounds of gossip.
pub const GOSSIP_INTERVAL_MS: u64 = 2_000;

/// The number of peers to gossip with in each round.
pub const GOSSIP_FANOUT: usize = 2;

/// The number of heartbeat intervals that are kept of a node.
pub const MAX_HEARTBEAT_SAMPLES: usize = 100;

// ---------------------------------------------------------------------------
// The health of a node
// ---------------------------------------------------------------------------

/// The health of one node.
#[derive(Clone, Copy, Debug)]
pub struct NodeHealth {
    pub node_id: u64,
    /// When the last successful probe was.
    pub last_seen: std::time::Instant,
    /// Failed probes since the last successful one.
    pub consecutive_failures: u8,
    pub status: NodeStatus,
    /// How long the last probe took, where it was successful.
    pub latency_ms: Option<u64>,
}

impl NodeHealth {
    /// The health of a node that has not been probed yet.
    pub fn new(node_id: u64) -> (h: Self)
        ensures
            h.node_id == node_id,
            h.consecutive_failures == 0,
            h.status == NodeStatus::Follower,
            h.latency_ms is None,
    {
        NodeHealth {
            node_id,
            last_seen: std::time::Instant::now(),
            consecutive_failures: 0,
            status: NodeStatus::Follower,
            latency_ms: None,
        }
    }

    /// Take note of a successful probe.  The result says whether the node came
    /// back online.
    pub fn record_success(&mut self, latency_ms: u64) -> (came_back: bool)
        ensures
            came_back == (old(self).status == NodeStatus::Offline),
            *final(self) == (NodeHealth {
                node_id: old(self).node_id,
                last_seen: final(self).last_seen,
                consecutive_failures: 0,
                status: if came_back {
                    NodeStatus::Follower
                } else {
                    old(self).status
                },
                latency_ms: Some(latency_ms),
            }),
    {
        let was_offline = self.status == NodeStatus::Offline;
        self.last_seen = std::time::Instant::now();
        self.consecutive_failures = 0;
        self.latency_ms = Some(latency_ms);
        if was_offline {
            self.status = NodeStatus::Follower;
        }
        was_offline
    }

    /// The health behind one more failed probe.
    pub open spec fn failed_once_more(self) -> NodeHealth {
        let failures = if self.consecutive_failures < u8::MAX {
            (self.consecutive_failures + 1) as u8
        } else {
            u8::MAX
        };
        NodeHealth {
            consecutive_failures: failures,
            latency_ms: None,
            status: if failures >= FAILURE_THRESHOLD {
                NodeStatus::Offline
            } else {
                self.status
            },
            ..self
        }
    }

    /// Take note of a failed probe.  The result says whether the node went
    /// offline just now.
    pub fn record_failure(&mut self) -> (went_offline: bool)
        ensures
            *final(self) == old(self).failed_once_more(),
            went_offline == (old(self).status != NodeStatus::Offline && final(self).status
                == NodeStatus::Offline),
    {
        self.consecutive_failures = self.consecutive_failures.saturating_add(1);
        self.latency_ms = None;
        if self.consecutive_failures >= FAILURE_THRESHOLD && self.status != NodeStatus::Offline {
            self.status = NodeStatus::Offline;
            return true;
        }
        false
    }

    /// Whether the node is online.
    pub fn is_online(&self) -> (r: bool)
        ensures
            r == (self.status != NodeStatus::Offline),
    {
        self.status != NodeStatus::Offline
    }
}

// ---------------------------------------------------------------------------
// Heartbeats
// ---------------------------------------------------------------------------

/// The heartbeats of one node.
#[derive(Debug)]
pub struct HeartbeatHistory {
    /// The last intervals between heartbeats, in whole milliseconds and in their
    /// order.
    pub intervals: Vec<u128>,
    /// When the last heartbeat came, on the detector's clock.
    pub last_heartbeat: Span,
}

/// `samples` with `interval` behind them; of more than a hundred the first is
/// dropped.
pub open spec fn sampled(samples: Seq<u128>, interval: u128) -> Seq<u128> {
    if interval == 0 {
        samples
    } else if samples.len() >= MAX_HEARTBEAT_SAMPLES {
        samples.skip(1).push(interval)
    } else {
        samples.push(interval)
    }
}

/// The whole milliseconds from `earlier` to `later`; none where they are the
/// other way round.
pub open spec fn millis_between(earlier: Span, later: Span) -> u128 {
    if later.nanos >= earlier.nanos {
        ((later.nanos - earlier.nanos) / 1_000_000) as u128
    } else {
        0
    }
}

fn interval_between(earlier: &Span, later: &Span) -> (ms: u128)
    ensures
        ms == millis_between(*earlier, *later),
{
    if later.nanos >= earlier.nanos {
        (later.nanos - earlier.nanos) / 1_000_000
    } else {
        0
    }
}

/// What a suspicion level is worked out from: the time since the last heartbeat
/// and the intervals before it, all in milliseconds.
#[derive(Debug)]
pub struct SampleWindow {
    pub elapsed_ms: u128,
    pub intervals: Vec<u128>,
}

/// Keeps the heartbeats of the nodes.
///
/// The detector reads its own clock, which starts with it.
pub struct FailureDetector {
    started: std::time::Instant,
    samples: Table<u64, HeartbeatHistory>,
}

impl FailureDetector {
    /// The heartbeats of each node that has sent one.
    pub closed spec fn history(&self) -> Map<u64, HeartbeatHistory> {
        self.samples@
    }

    /// A detector that has seen no heartbeat.
    pub fn new() -> (d: Self)
        ensures
            d.history() == Map::<u64, HeartbeatHistory>::empty(),
    {
        FailureDetector { started: std::time::Instant::now(), samples: Table::new() }
    }

    /// `after` is `self` behind a heartbeat of `node` at `at`.
    pub open spec fn heard(&self, after: FailureDetector, node: u64, at: Span) -> bool {
        &&& after.history().contains_key(node)
        &&& after.history() == self.history().insert(node, after.history()[node])
        &&& after.history()[node].last_heartbeat == at
        &&& after.history()[node].intervals@ == if self.history().contains_key(node) {
            sampled(
                self.history()[node].intervals@,
                millis_between(self.history()[node].last_heartbeat, at),
            )
        } else {
            Seq::empty()
        }
    }

    /// Take note of a heartbeat that comes now.
    pub fn report_heartbeat(&mut self, node_id: u64)
        ensures
            exists|now: Span| old(self).heard(*final(self), node_id, now),
    {
        let now = elapsed_since(&self.started);
        self.report_heartbeat_at(node_id, now);
        assert(old(self).heard(*self, node_id, now));
    }

    /// Take note of a heartbeat that came at `at`.
    pub fn report_heartbeat_at(&mut self, node_id: u64, at: Span)
        ensures
            old(self).heard(*final(self), node_id, at),
    {
        let ghost before = self.samples@;
        match self.samples.remove(&node_id) {
            Some(history) => {
                let mut history = history;
                let interval = interval_between(&history.last_heartbeat, &at);
                let ghost known = history.intervals@;
                if interval > 0 {
                    if history.intervals.len() >= MAX_HEARTBEAT_SAMPLES {
                        let _ = history.intervals.remove(0);
                        assert(history.intervals@ =~= known.skip(1));
                    }
                    history.intervals.push(interval);
                }
                history.last_heartbeat = at;
                self.samples.insert(node_id, history);
                assert(before.remove(node_id).insert(node_id, history) =~= before.insert(
                    node_id,
                    history,
                ));
            },
            None => {
                let history = HeartbeatHistory { intervals: Vec::new(), last_heartbeat: at };
                self.samples.insert(node_id, history);
                assert(before.remove(node_id) =~= before);
            },
        }
    }

    /// What the suspicion level of a node at `at` is worked out from; `None`
    /// while the node has fewer than two intervals.
    pub fn window_at(&self, node_id: u64, at: Span) -> (r: Option<SampleWindow>)
        ensures
            match r {
                Some(w) => {
                    &&& self.history().contains_key(node_id)
                    &&& self.history()[node_id].intervals@.len() >= 2
                    &&& w.intervals@ == self.history()[node_id].intervals@
                    &&& w.elapsed_ms == millis_between(
                        self.history()[node_id].last_heartbeat,
                        at,
                    )
                },
                None => !self.history().contains_key(node_id)
                    || self.history()[node_id].intervals@.len() < 2,
            },
    {
        match self.samples.get(&node_id) {
            Some(history) => {
                if history.intervals.len() < 2 {
                    return None;
                }
                let intervals = history.intervals.clone();
                assert(intervals@ =~= history.intervals@);
                Some(
                    SampleWindow {
                        elapsed_ms: interval_between(&history.last_heartbeat, &at),
                        intervals,
                    },
                )
            },
            None => None,
        }
    }

    /// What the suspicion level of a node at this moment is worked out from.
    pub fn window(&self, node_id: u64) -> (r: Option<SampleWindow>)
        ensures
            r is Some <==> self.history().contains_key(node_id)
                && self.history()[node_id].intervals@.len() >= 2,
            r is Some ==> r->0.intervals@ == self.history()[node_id].intervals@,
    {
        let now = elapsed_since(&self.started);
        self.window_at(node_id, now)
    }

    /// Forget a node.
    pub fn remove_node(&mut self, node_id: u64)
        ensures
            final(self).history() == old(self).history().remove(node_id),
    {
        let _ = self.samples.remove(&node_id);
    }
}

// ---------------------------------------------------------------------------
// Read repair
// ---------------------------------------------------------------------------

/// One replica's copy of a document: the node, the copy and its version.
pub type Replica = (u64, Document, u64);

/// The greatest version among the replicas.
pub open spec fn max_version(replicas: Seq<Replica>) -> u64
    decreases replicas.len(),
{
    if replicas.len() == 0 {
        0
    } else {
        let rest = max_version(replicas.drop_last());
        if replicas.last().2 > rest {
            replicas.last().2
        } else {
            rest
        }
    }
}

/// The nodes whose copy is older than `version`, in the replicas' order.
pub open spec fn stale(replicas: Seq<Replica>, version: u64) -> Seq<u64>
    decreases replicas.len(),
{
    if replicas.len() == 0 {
        Seq::empty()
    } else {
        let rest = stale(replicas.drop_last(), version);
        if replicas.last().2 < version {
            rest.push(replicas.last().0)
        } else {
            rest
        }
    }
}

/// The first replica, from `from` on, whose copy has `version`; or their number.
pub open spec fn first_with(replicas: Seq<Replica>, version: u64, from: int) -> int
    decreases replicas.len() - from,
{
    if from >= replicas.len() || replicas[from].2 == version {
        from
    } else {
        first_with(replicas, version, from + 1)
    }
}

proof fn lemma_max_version(replicas: Seq<Replica>)
    ensures
        forall|i: int|
            0 <= i < replicas.len() ==> (#[trigger] replicas[i]).2 <= max_version(replicas),
        replicas.len() > 0 ==> exists|i: int|
            0 <= i < replicas.len() && (#[trigger] replicas[i]).2 == max_version(replicas),
    decreases replicas.len(),
{
    if replicas.len() > 0 {
        let front = replicas.drop_last();
        lemma_max_version(front);
        assert forall|i: int| 0 <= i < replicas.len() implies (#[trigger] replicas[i]).2
            <= max_version(replicas) by {
            if i < front.len() {
                assert(replicas[i] == front[i]);
            }
        }
        if replicas.last().2 > max_version(front) || front.len() == 0 {
            assert(replicas[replicas.len() - 1].2 == max_version(replicas));
        } else {
            let i = choose|i: int|
                0 <= i < front.len() && (#[trigger] front[i]).2 == max_version(front);
            assert(replicas[i].2 == max_version(replicas));
        }
    }
}

proof fn lemma_first_with(replicas: Seq<Replica>, version: u64, from: int)
    requires
        0 <= from <= replicas.len(),
    ensures
        from <= first_with(replicas, version, from) <= replicas.len(),
        first_with(replicas, version, from) < replicas.len() ==> replicas[first_with(
            replicas,
            version,
            from,
        )].2 == version,
        forall|i: int|
            from <= i < first_with(replicas, version, from) ==> (#[trigger] replicas[i]).2
                != version,
    decreases replicas.len() - from,
{
    if from < replicas.len() && replicas[from].2 != version {
        lemma_first_with(replicas, version, from + 1);
    }
}

/// A document's replicas that do not agree.
pub struct ReplicaComparison {
    /// The copy with the greatest version.
    pub latest: Document,
    pub latest_version: u64,
    /// The nodes whose copy is older.
    pub stale_nodes: Vec<u64>,
}

/// Finds replicas that have to be repaired.
#[derive(Clone, Copy, Debug)]
pub struct ReadRepairCoordinator {
    replication_factor: u8,
}

impl ReadRepairCoordinator {
    pub closed spec fn factor(&self) -> u8 {
        self.replication_factor
    }

    /// A coordinator for so many replicas of each document.
    pub fn new(replication_factor: u8) -> (c: Self)
        ensures
            c.factor() == replication_factor,
    {
        ReadRepairCoordinator { replication_factor }
    }

    /// The number of replicas of each document.
    pub fn replication_factor(&self) -> (n: u8)
        ensures
            n == self.factor(),
    {
        self.replication_factor
    }

    /// Compare the replicas of a document; `None` where they agree.
    pub fn compare_replicas(&self, replicas: &Vec<Replica>) -> (r: Option<ReplicaComparison>)
        ensures
            ({
                let version = max_version(replicas@);
                match r {
                    Some(c) => {
                        &&& stale(replicas@, version).len() > 0
                        &&& c.latest_version == version
                        &&& c.stale_nodes@ == stale(replicas@, version)
                        &&& c.latest@ == replicas@[first_with(replicas@, version, 0)].1@
                    },
                    None => stale(replicas@, version).len() == 0,
                }
            }),
    {
        let mut version: u64 = 0;
        let mut i: usize = 0;
        assert(replicas@.take(0) =~= Seq::<Replica>::empty());
        while i < replicas.len()
            invariant
                i <= replicas@.len(),
                version == max_version(replicas@.take(i as int)),
            decreases replicas@.len() - i,
        {
            proof {
                let next = replicas@.take(i + 1);
                assert(next.drop_last() =~= replicas@.take(i as int));
                assert(next.last() == replicas@[i as int]);
            }
            if replicas[i].2 > version {
                version = replicas[i].2;
            }
            i = i + 1;
        }
        assert(replicas@.take(i as int) =~= replicas@);
        let mut stale_nodes: Vec<u64> = Vec::new();
        let mut j: usize = 0;
        while j < replicas.len()
            invariant
                j <= replicas@.len(),
                stale_nodes@ == stale(replicas@.take(j as int), version),
            decreases replicas@.len() - j,
        {
            proof {
                let next = replicas@.take(j + 1);
                assert(next.drop_last() =~= replicas@.take(j as int));
                assert(next.last() == replicas@[j as int]);
            }
            if replicas[j].2 < version {
                stale_nodes.push(replicas[j].0);
            }
            j = j + 1;
        }
        assert(replicas@.take(j as int) =~= replicas@);
        if stale_nodes.len() == 0 {
            return None;
        }
        proof {
            lemma_max_version(replicas@);
            lemma_first_with(replicas@, version, 0);
        }
        let mut k: usize = 0;
        while replicas[k].2 != version
            invariant
                k < replicas@.len(),
                first_with(replicas@, version, 0) == first_with(replicas@, version, k as int),
                first_with(replicas@, version, 0) < replicas@.len(),
            decreases replicas@.len() - k,
        {
            proof {
                lemma_first_with(replicas@, version, k + 1);
                assert(replicas.len() == replicas@.len());
            }
            k = k + 1;
        }
        Some(
            ReplicaComparison {
                latest: replicas[k].1.clone(),
                latest_version: version,
                stale_nodes,
            },
        )
    }
}

/// A repair is called for exactly where two replicas differ in version.
pub proof fn repair_exactly_when_versions_differ(replicas: Seq<Replica>)
    ensures
        stale(replicas, max_version(replicas)).len() > 0 <==> exists|i: int, j: int|
            #![trigger replicas[i], replicas[j]]
            0 <= i < replicas.len() && 0 <= j < replicas.len() && replicas[i].2 != replicas[j].2,
{
    let version = max_version(replicas);
    lemma_max_version(replicas);
    lemma_stale(replicas, version);
    if stale(replicas, version).len() > 0 {
        let n = stale(replicas, version)[0];
        let i = choose|i: int| 0 <= i < replicas.len() && (#[trigger] replicas[i]).2 < version;
        let j = choose|j: int| 0 <= j < replicas.len() && (#[trigger] replicas[j]).2 == version;
        assert(replicas[i].2 != replicas[j].2);
    }
    if exists|i: int, j: int|
        #![trigger replicas[i], replicas[j]]
        0 <= i < replicas.len() && 0 <= j < replicas.len() && replicas[i].2 != replicas[j].2 {
        let (i, j) = choose|i: int, j: int|
            #![trigger replicas[i], replicas[j]]
            0 <= i < replicas.len() && 0 <= j < replicas.len() && replicas[i].2 != replicas[j].2;
        assert(replicas[i].2 <= version && replicas[j].2 <= version);
        if replicas[i].2 < version {
            assert(replicas[i].2 < version);
        } else {
            assert(replicas[j].2 < version);
        }
    }
}

proof fn lemma_stale(replicas: Seq<Replica>, version: u64)
    ensures
        stale(replicas, version).len() > 0 <==> exists|i: int|
            0 <= i < replicas.len() && (#[trigger] replicas[i]).2 < version,
    decreases replicas.len(),
{
    if replicas.len() > 0 {
        let front = replicas.drop_last();
        lemma_stale(front, version);
        if stale(replicas, version).len() > 0 {
            if replicas.last().2 < version {
                assert(replicas[replicas.len() - 1].2 < version);
            } else {
                let i = choose|i: int| 0 <= i < front.len() && (#[trigger] front[i]).2 < version;
                assert(replicas[i].2 < version);
            }
        }
        if exists|i: int| 0 <= i < replicas.len() && (#[trigger] replicas[i]).2 < version {
            let i = choose|i: int| 0 <= i < replicas.len() && (#[trigger] replicas[i]).2 < version;
            if i < front.len() {
                assert(front[i].2 < version);
            }
        }
    }
}

// ---------------------------------------------------------------------------
// The health table
// ---------------------------------------------------------------------------

/// `dashmap::DashMap`: a concurrent hash map.
#[verifier::external_type_specification]
#[verifier::external_body]
#[verifier::reject_recursive_types(K)]
#[verifier::reject_recursive_types(V)]
#[verifier::reject_recursive_types(S)]
pub struct ExDashMap<K, V, S>(dashmap::DashMap<K, V, S>);

/// What a health table holds: the health of each tracked node.
pub uninterp spec fn health_entries(table: DashMap<u64, NodeHealth, RandomState>) -> Map<u64, NodeHealth>;

/// `dashmap::DashMap::new`: an empty map.
#[verifier::external_body]
fn health_table_new() -> (table: DashMap<u64, NodeHealth, RandomState>)
    ensures
        health_entries(table).dom() == Set::<u64>::empty(),
{
    DashMap::new()
}

/// `dashmap::DashMap::insert`: puts the value under the key, in place of one that
/// was there.
#[verifier::external_body]
fn health_table_insert(
    table: &mut DashMap<u64, NodeHealth, RandomState>,
    node: u64,
    health: NodeHealth,
)
    ensures
        health_entries(*final(table)) == health_entries(*old(table)).insert(node, health),
{
    table.insert(node, health);
}

/// `dashmap::DashMap::remove`: takes the key's entry out, where there is one.
#[verifier::external_body]
fn health_table_remove(table: &mut DashMap<u64, NodeHealth, RandomState>, node: u64)
    ensures
        health_entries(*final(table)) == health_entries(*old(table)).remove(node),
{
    table.remove(&node);
}

/// `dashmap::DashMap::get`: the value under the key, copied.
#[verifier::external_body]
fn health_table_get(table: &DashMap<u64, NodeHealth, RandomState>, node: u64) -> (r: Option<
    NodeHealth,
>)
    ensures
        match r {
            Some(h) => health_entries(*table).contains_key(node) && h == health_entries(*table)[node],
            None => !health_entries(*table).contains_key(node),
        },
{
    table.get(&node).map(|entry| *entry.value())
}

/// `dashmap::DashMap::iter`: the keys of the map, each once.  Their order is the
/// map's own.
#[verifier::external_body]
fn health_table_keys(table: &DashMap<u64, NodeHealth, RandomState>) -> (keys: Vec<u64>)
    ensures
        keys@.no_duplicates(),
        keys@.to_set() == health_entries(*table).dom(),
{
    table.iter().map(|entry| *entry.key()).collect()
}

// ---------------------------------------------------------------------------
// The cluster manager
// ---------------------------------------------------------------------------

/// The health of the tracked nodes once the status of each of `changed` is the one in
/// the view.
pub open spec fn told(
    health: Map<u64, NodeHealth>,
    changed: Seq<u64>,
    view: ClusterView,
) -> Map<u64, NodeHealth> {
    health.map_entries(
        |id: u64, h: NodeHealth|
            if changed.contains(id) {
                NodeHealth { status: view[id].0, ..h }
            } else {
                h
            },
    )
}

/// The work that leaving the cluster has to do next.
#[derive(Clone, Copy, Debug, PartialEq, Eq, Structural)]
pub enum LeaveStage {
    /// Propose the removal of the node to the cluster, or forward it to the leader.
    Remove,
    /// Drain the connections of the node.
    Drain,
    /// Nothing: the node has left, or could not leave.
    Done,
}

/// A node on its way out of the cluster.
pub struct ClusterLeave {
    pub node_id: u64,
    pub stage: LeaveStage,
}

impl ClusterLeave {
    /// The cluster has answered the proposal.  Where it refused, the node stays.
    pub fn on_removed(&mut self, outcome: Result<(), DbError>) -> (r: Result<(), DbError>)
        requires
            old(self).stage == LeaveStage::Remove,
        ensures
            final(self).node_id == old(self).node_id,
            r == outcome,
            final(self).stage == if outcome is Ok {
                LeaveStage::Drain
            } else {
                LeaveStage::Done
            },
    {
        self.stage = if outcome.is_ok() {
            LeaveStage::Drain
        } else {
            LeaveStage::Done
        };
        outcome
    }

    /// The connections are drained: the node is offline from now on.
    pub fn on_drained(&mut self, manager: &mut ClusterManager)
        requires
            old(self).stage == LeaveStage::Drain,
            old(self).node_id == old(manager).local_node.id,
        ensures
            final(self).node_id == old(self).node_id,
            final(self).stage == LeaveStage::Done,
            old(manager).left(*final(manager)),
    {
        manager.leave_cluster();
        self.stage = LeaveStage::Done;
    }
}

/// What a probe showed of a node.
#[derive(Clone, Copy, Debug, PartialEq, Eq, Structural)]
pub enum Transition {
    /// Nothing new.
    Steady,
    /// The node is back online.
    CameBack,
    /// The node went offline, and is routed to no more.
    WentOffline,
}

/// A read repair under way: the latest copy of a document is written to one stale
/// replica after the other, and then handed out.
pub struct RepairRun {
    pub document: Document,
    /// The nodes whose replicas are older, in the order in which they are written.
    pub stale_nodes: Vec<u64>,
    /// How many of them have been written.
    pub written: usize,
}

impl RepairRun {
    /// No more replicas have been written than are stale.
    pub open spec fn wf(&self) -> bool {
        self.written <= self.stale_nodes@.len()
    }

    /// The node to write the document to next; `None` when every stale replica has
    /// been written.
    pub fn next_node(&self) -> (r: Option<u64>)
        requires
            self.wf(),
        ensures
            match r {
                Some(id) => self.written < self.stale_nodes@.len() && id
                    == self.stale_nodes@[self.written as int],
                None => self.written == self.stale_nodes@.len(),
            },
    {
        if self.written < self.stale_nodes.len() {
            Some(self.stale_nodes[self.written])
        } else {
            None
        }
    }

    /// The document has been written to the next node, or could not be, which ends
    /// the repair.
    pub fn on_written(&mut self, outcome: Result<(), DbError>) -> (r: Result<(), DbError>)
        requires
            old(self).wf(),
            old(self).written < old(self).stale_nodes@.len(),
        ensures
            final(self).wf(),
            final(self).document == old(self).document,
            final(self).stale_nodes == old(self).stale_nodes,
            r == outcome,
            final(self).written == if outcome is Ok {
                old(self).written + 1
            } else {
                old(self).written as int
            },
    {
        assert(self.stale_nodes.len() == self.stale_nodes@.len());
        if outcome.is_ok() {
            self.written = self.written + 1;
        }
        outcome
    }

    /// The document, once every stale replica has it.
    pub fn finish(self) -> (d: Document)
        requires
            self.written == self.stale_nodes@.len(),
        ensures
            d == self.document,
    {
        self.document
    }
}

/// Keeps track of the cluster's nodes.
pub struct ClusterManager {
    pub local_node: NodeInfo,
    pub health_state: DashMap<u64, NodeHealth, RandomState>,
    /// The nodes that requests are routed to.
    pub router: Table<u64, NodeInfo>,
    pub failure_detector: FailureDetector,
    pub gossip_manager: GossipManager,
    pub read_repair: ReadRepairCoordinator,
}

impl ClusterManager {
    /// The health of each tracked node.
    pub open spec fn health(&self) -> Map<u64, NodeHealth> {
        health_entries(self.health_state)
    }

    /// A manager that tracks this node alone, and routes to the given nodes.
    pub fn new(local_node: NodeInfo, router: Table<u64, NodeInfo>, replication_factor: u8) -> (m:
        Self)
        ensures
            m.local_node == local_node,
            m.router == router,
            m.health().dom() == set![local_node.id],
            m.health()[local_node.id].node_id == local_node.id,
            m.health()[local_node.id].status == NodeStatus::Follower,
            m.health()[local_node.id].consecutive_failures == 0,
            m.health()[local_node.id].latency_ms is None,
            m.gossip_manager.view() == ClusterView::empty(),
            m.gossip_manager.local() == local_node.id,
            m.failure_detector.history() == Map::<u64, HeartbeatHistory>::empty(),
            m.read_repair.factor() == replication_factor,
    {
        let id: u64 = local_node.id;
        let mut health_state = health_table_new();
        health_table_insert(&mut health_state, id, NodeHealth::new(id));
        let m = ClusterManager {
            local_node,
            health_state,
            router,
            failure_detector: FailureDetector::new(),
            gossip_manager: GossipManager::new(id),
            read_repair: ReadRepairCoordinator::new(replication_factor),
        };
        assert(m.health().dom() =~= set![local_node.id]);
        m
    }

    /// The nodes to probe in a round of health checks: every tracked node but
    /// this one, each once.
    pub fn health_check_targets(&self) -> (ids: Vec<u64>)
        ensures
            ids@.no_duplicates(),
            forall|id: u64|
                ids@.contains(id) <==> self.health().contains_key(id) && id != self.local_node.id,
    {
        let keys = health_table_keys(&self.health_state);
        let mut ids: Vec<u64> = Vec::new();
        let mut i: usize = 0;
        while i < keys.len()
            invariant
                i <= keys@.len(),
                keys@.no_duplicates(),
                ids@.no_duplicates(),
                forall|id: u64|
                    ids@.contains(id) <==> keys@.take(i as int).contains(id) && id
                        != self.local_node.id,
            decreases keys@.len() - i,
        {
            let id: u64 = keys[i];
            let ghost before = ids@;
            assert(keys@.take(i + 1) =~= keys@.take(i as int).push(id));
            assert(!keys@.take(i as int).contains(id)) by {
                if keys@.take(i as int).contains(id) {
                    let j = choose|j: int| 0 <= j < i && keys@.take(i as int)[j] == id;
                    assert(keys@[j] == keys@[i as int]);
                }
            }
            assert(!before.contains(id));
            if id != self.local_node.id {
                ids.push(id);
            }
            assert forall|x: u64| ids@.contains(x) <==> keys@.take(i + 1).contains(x) && x
                != self.local_node.id by {
                lemma_push_contains(before, id, x);
                lemma_push_contains(keys@.take(i as int), id, x);
            }
            i = i + 1;
        }
        proof {
            assert(keys@.take(i as int) =~= keys@);
            assert forall|id: u64| ids@.contains(id) <==> self.health().contains_key(id) && id
                != self.local_node.id by {
                assert(keys@.contains(id) <==> keys@.to_set().contains(id));
            }
        }
        ids
    }

    /// Where to probe a node.
    pub fn ping_address(&self, node_id: u64) -> (r: Result<NodeAddress, DbError>)
        ensures
            match r {
                Ok(a) => self.router@.contains_key(node_id) && a == self.router@[node_id].address,
                Err(e) => {
                    &&& !self.router@.contains_key(node_id)
                    &&& e matches DbError::NetworkError(m)
                    &&& m@ == "unknown node "@ + node_name(node_id) + " in router"@
                },
            },
    {
        match self.router.get(&node_id) {
            Some(info) => Ok(info.address.clone()),
            None => Err(
                DbError::NetworkError(
                    text::concat3("unknown node ", name_of_node(node_id).as_str(), " in router"),
                ),
            ),
        }
    }

    /// A node was probed.  A success is a heartbeat; a node that fails too often
    /// goes offline and is routed to no more.
    pub fn on_probe(&mut self, node_id: u64, alive: bool, latency_ms: u64) -> (t: Transition)
        ensures
            final(self).local_node == old(self).local_node,
            final(self).gossip_manager == old(self).gossip_manager,
            final(self).read_repair == old(self).read_repair,
            final(self).health().dom() == old(self).health().dom(),
            forall|id: u64|
                id != node_id && old(self).health().contains_key(id) ==> #[trigger] final(self).health()[id] == old(self).health()[id],
            alive ==> {
                &&& exists|now: Span|
                    old(self).failure_detector.heard(final(self).failure_detector, node_id, now)
                &&& final(self).router == old(self).router
                &&& old(self).health().contains_key(node_id) ==> {
                    &&& final(self).health()[node_id].node_id == old(
                        self,
                    ).health()[node_id].node_id
                    &&& final(self).health()[node_id].consecutive_failures == 0
                    &&& final(self).health()[node_id].latency_ms == Some(latency_ms)
                    &&& final(self).health()[node_id].status == if t == Transition::CameBack {
                        NodeStatus::Follower
                    } else {
                        old(self).health()[node_id].status
                    }
                }
                &&& t == if old(self).health().contains_key(node_id) && old(
                    self,
                ).health()[node_id].status == NodeStatus::Offline {
                    Transition::CameBack
                } else {
                    Transition::Steady
                }
            },
            !alive ==> {
                &&& final(self).failure_detector == old(self).failure_detector
                &&& old(self).health().contains_key(node_id) ==> final(self).health()[node_id]
                    == old(self).health()[node_id].failed_once_more()
                &&& t == if old(self).health().contains_key(node_id) && old(
                    self,
                ).health()[node_id].status != NodeStatus::Offline && final(self).health()[node_id].status == NodeStatus::Offline {
                    Transition::WentOffline
                } else {
                    Transition::Steady
                }
                &&& final(self).router@ == if t == Transition::WentOffline {
                    old(self).router@.remove(node_id)
                } else {
                    old(self).router@
                }
            },
    {
        let known = health_table_get(&self.health_state, node_id);
        if alive {
            let mut t = Transition::Steady;
            if let Some(health) = known {
                let mut health = health;
                if health.record_success(latency_ms) {
                    t = Transition::CameBack;
                }
                health_table_insert(&mut self.health_state, node_id, health);
            }
            let ghost detector = self.failure_detector;
            self.failure_detector.report_heartbeat(node_id);
            proof {
                let now = choose|now: Span| detector.heard(self.failure_detector, node_id, now);
                assert(old(self).failure_detector.heard(self.failure_detector, node_id, now));
            }
            assert(self.health().dom() =~= old(self).health().dom());
            t
        } else {
            let mut t = Transition::Steady;
            if let Some(health) = known {
                let mut health = health;
                let went_offline = health.record_failure();
                health_table_insert(&mut self.health_state, node_id, health);
                if went_offline {
                    t = Transition::WentOffline;
                    let _ = self.router.remove(&node_id);
                }
            }
            assert(self.health().dom() =~= old(self).health().dom());
            t
        }
    }

    /// A round of gossip at the time `now`: take note of the health of every
    /// tracked node, and say what to tell and whom.
    pub fn gossip_round(&mut self, now: u64) -> (r: (GossipMessage, Vec<u64>))
        ensures
            final(self).health() == old(self).health(),
            final(self).local_node == old(self).local_node,
            final(self).router == old(self).router,
            final(self).failure_detector == old(self).failure_detector,
            final(self).read_repair == old(self).read_repair,
            final(self).gossip_manager.local() == old(self).gossip_manager.local(),
            final(self).gossip_manager.view() == observed(
                old(self).gossip_manager.view(),
                old(self).health(),
                now,
            ),
            r.0.from == old(self).gossip_manager.local(),
            tells(r.0.cluster_view@, final(self).gossip_manager.view()),
            r.1@.len() <= GOSSIP_FANOUT,
            r.1@.no_duplicates(),
            forall|i: int|
                0 <= i < r.1@.len() ==> final(self).gossip_manager.eligible(#[trigger] r.1@[i]),
            r.1@.len() < GOSSIP_FANOUT ==> forall|id: u64| #[trigger]
                final(self).gossip_manager.eligible(id) ==> r.1@.contains(id),
    {
        let keys = health_table_keys(&self.health_state);
        let ghost view0 = self.gossip_manager.view();
        let ghost health = self.health();
        let mut i: usize = 0;
        assert(observed_some(view0, health, Set::empty(), now) =~= view0);
        while i < keys.len()
            invariant
                i <= keys@.len(),
                keys@.no_duplicates(),
                keys@.to_set() == health.dom(),
                self.health() == health,
                self.health_state == old(self).health_state,
                self.local_node == old(self).local_node,
                self.router == old(self).router,
                self.failure_detector == old(self).failure_detector,
                self.read_repair == old(self).read_repair,
                self.gossip_manager.local() == old(self).gossip_manager.local(),
                self.gossip_manager.view() == observed_some(
                    view0,
                    health,
                    keys@.take(i as int).to_set(),
                    now,
                ),
            decreases keys@.len() - i,
        {
            let id: u64 = keys[i];
            let ghost seen = keys@.take(i as int).to_set();
            assert(keys@.contains(keys@[i as int]));
            assert(keys@.to_set().contains(id));
            assert(!seen.contains(id)) by {
                if keys@.take(i as int).contains(id) {
                    let j = choose|j: int| 0 <= j < i && keys@.take(i as int)[j] == id;
                    assert(keys@[j] == keys@[i as int]);
                }
            }
            match health_table_get(&self.health_state, id) {
                Some(h) => {
                    self.gossip_manager.update_local(id, h.status, now);
                },
                None => {},
            }
            proof {
                assert(keys@.take(i + 1).to_set() =~= seen.insert(id)) by {
                    assert(keys@.take(i + 1) =~= keys@.take(i as int).push(id));
                    assert forall|x: u64| keys@.take(i + 1).to_set().contains(x)
                        == seen.insert(id).contains(x) by {
                        lemma_push_contains(keys@.take(i as int), id, x);
                    }
                }
                assert(self.gossip_manager.view() =~= observed_some(
                    view0,
                    health,
                    seen.insert(id),
                    now,
                ));
            }
            i = i + 1;
        }
        proof {
            assert(keys@.take(i as int) =~= keys@);
            assert(observed_some(view0, health, health.dom(), now) =~= observed(
                view0,
                health,
                now,
            ));
        }
        let message = self.gossip_manager.build_message();
        let targets = self.gossip_manager.select_gossip_targets(GOSSIP_FANOUT);
        (message, targets)
    }

    /// A peer told its view.  The result lists the nodes whose status changed; those that
    /// are tracked have their new status from now on.
    pub fn handle_gossip(&mut self, message: &GossipMessage) -> (changed: Vec<u64>)
        ensures
            final(self).health() == told(
                old(self).health(),
                changed@,
                final(self).gossip_manager.view(),
            ),
            final(self).local_node == old(self).local_node,
            final(self).router == old(self).router,
            final(self).failure_detector == old(self).failure_detector,
            final(self).read_repair == old(self).read_repair,
            final(self).gossip_manager.local() == old(self).gossip_manager.local(),
            final(self).gossip_manager.view() == merged(
                old(self).gossip_manager.view(),
                message.cluster_view@,
            ),
            changed@ == changed_nodes(old(self).gossip_manager.view(), message.cluster_view@),
    {
        let changed = self.gossip_manager.merge(message);
        let ghost health = self.health();
        let ghost view = self.gossip_manager.view();
        proof {
            assert(told(health, changed@.take(0), view) =~= health);
            let view0 = old(self).gossip_manager.view();
            assert forall|k: int| 0 <= k < changed@.len() implies view.contains_key(
                #[trigger] changed@[k],
            ) by {
                assert(changed_nodes(view0, message.cluster_view@)[k] == changed@[k]);
                changed_nodes_are_known(view0, message.cluster_view@, changed@[k]);
            }
        }
        let mut i: usize = 0;
        while i < changed.len()
            invariant
                i <= changed@.len(),
                view == self.gossip_manager.view(),
                view == merged(old(self).gossip_manager.view(), message.cluster_view@),
                self.health() == told(health, changed@.take(i as int), view),
                self.gossip_manager.local() == old(self).gossip_manager.local(),
                self.local_node == old(self).local_node,
                self.router == old(self).router,
                self.failure_detector == old(self).failure_detector,
                self.read_repair == old(self).read_repair,
                forall|k: int| 0 <= k < changed@.len() ==> view.contains_key(#[trigger] changed@[k]),
            decreases changed@.len() - i,
        {
            let id: u64 = changed[i];
            let ghost before = self.health();
            let status = self.gossip_manager.status_of(id);
            if let (Some((status, _)), Some(known)) = (
                status,
                health_table_get(&self.health_state, id),
            ) {
                let mut known = known;
                known.status = status;
                health_table_insert(&mut self.health_state, id, known);
            }
            proof {
                let front = changed@.take(i as int);
                assert(changed@.take(i + 1) =~= front.push(id));
                assert forall|x: u64| #[trigger] front.push(id).contains(x) == (front.contains(x)
                    || x == id) by {
                    lemma_push_contains(front, id, x);
                }
                assert(self.health() =~= told(health, changed@.take(i + 1), view));
            }
            i = i + 1;
        }
        assert(changed@.take(i as int) =~= changed@);
        changed
    }

    /// What this node tells a peer to join its cluster: its id and its address.
    pub fn join_request(&self) -> (r: (u64, String))
        ensures
            r.0 == self.local_node.id,
            r.1@ == self.local_node.address.spelled(),
    {
        (self.local_node.id, self.local_node.address.display())
    }

    /// `after` is `self` with this node offline.
    pub open spec fn left(&self, after: ClusterManager) -> bool {
        let id = self.local_node.id;
        &&& after.local_node == self.local_node
        &&& after.router == self.router
        &&& after.failure_detector == self.failure_detector
        &&& after.gossip_manager == self.gossip_manager
        &&& after.read_repair == self.read_repair
        &&& after.health() == if self.health().contains_key(id) {
            self.health().insert(
                id,
                NodeHealth { status: NodeStatus::Offline, ..self.health()[id] },
            )
        } else {
            self.health()
        }
    }

    /// Begin to leave the cluster.
    pub fn leave_request(&self) -> (r: ClusterLeave)
        ensures
            r.node_id == self.local_node.id,
            r.stage == LeaveStage::Remove,
    {
        ClusterLeave { node_id: self.local_node.id, stage: LeaveStage::Remove }
    }

    /// This node is offline from now on.
    pub fn leave_cluster(&mut self)
        ensures
            old(self).left(*final(self)),
    {
        let id: u64 = self.local_node.id;
        if let Some(health) = health_table_get(&self.health_state, id) {
            let mut health = health;
            health.status = NodeStatus::Offline;
            health_table_insert(&mut self.health_state, id, health);
        }
    }

    /// Track a node and route to it.
    pub fn register_node(&mut self, node: NodeInfo)
        ensures
            final(self).local_node == old(self).local_node,
            final(self).health().contains_key(node.id),
            final(self).health() == old(self).health().insert(
                node.id,
                final(self).health()[node.id],
            ),
            final(self).health()[node.id].node_id == node.id,
            final(self).health()[node.id].status == NodeStatus::Follower,
            final(self).health()[node.id].consecutive_failures == 0,
            final(self).health()[node.id].latency_ms is None,
            final(self).router@ == old(self).router@.insert(node.id, node),
            final(self).failure_detector == old(self).failure_detector,
            final(self).gossip_manager == old(self).gossip_manager,
            final(self).read_repair == old(self).read_repair,
    {
        let id: u64 = node.id;
        health_table_insert(&mut self.health_state, id, NodeHealth::new(id));
        self.router.insert(id, node);
    }

    /// Track a node no more, and route to it no more.
    pub fn deregister_node(&mut self, node_id: u64)
        ensures
            final(self).local_node == old(self).local_node,
            final(self).health() == old(self).health().remove(node_id),
            final(self).router@ == old(self).router@.remove(node_id),
            final(self).failure_detector.history() == old(
                self,
            ).failure_detector.history().remove(node_id),
            final(self).gossip_manager == old(self).gossip_manager,
            final(self).read_repair == old(self).read_repair,
    {
        health_table_remove(&mut self.health_state, node_id);
        let _ = self.router.remove(&node_id);
        self.failure_detector.remove_node(node_id);
    }

    /// Compare the replicas of a document.  The latest copy is to be written to every
    /// stale replica before it is handed out.
    pub fn read_repair(&self, doc_id: &str, replicas: &Vec<Replica>) -> (r: Result<
        RepairRun,
        DbError,
    >)
        ensures
            ({
                let version = max_version(replicas@);
                match r {
                    Ok(run) => {
                        &&& replicas@.len() > 0
                        &&& run.wf()
                        &&& run.document@ == replicas@[first_with(replicas@, version, 0)].1@
                        &&& run.stale_nodes@ == stale(replicas@, version)
                        &&& run.written == 0
                    },
                    Err(e) => {
                        &&& replicas@.len() == 0
                        &&& e matches DbError::NotFound(m)
                        &&& m@ == "no replicas for document '"@ + doc_id@ + "'"@
                    },
                }
            }),
    {
        match self.read_repair.compare_replicas(replicas) {
            Some(comparison) => {
                proof {
                    if replicas@.len() == 0 {
                        assert(stale(replicas@, max_version(replicas@)).len() == 0);
                    }
                }
                Ok(
                    RepairRun {
                        document: comparison.latest,
                        stale_nodes: comparison.stale_nodes,
                        written: 0,
                    },
                )
            },
            None => {
                if replicas.len() == 0 {
                    return Err(
                        DbError::NotFound(
                            text::concat3("no replicas for document '", doc_id, "'"),
                        ),
                    );
                }
                proof {
                    lemma_max_version(replicas@);
                    lemma_stale(replicas@, max_version(replicas@));
                    assert(replicas@[0].2 == max_version(replicas@));
                    assert(stale(replicas@, max_version(replicas@)) =~= Seq::<u64>::empty());
                }
                Ok(
                    RepairRun {
                        document: replicas[0].1.clone(),
                        stale_nodes: Vec::new(),
                        written: 0,
                    },
                )
            },
        }
    }

    /// The health of every tracked node, each once.
    pub fn health_snapshot(&self) -> (list: Vec<NodeHealth>)
        ensures
            list@.len() == self.health().dom().len(),
            exists|ids: Seq<u64>|
                {
                    &&& ids.no_duplicates()
                    &&& ids.to_set() == self.health().dom()
                    &&& ids.len() == list@.len()
                    &&& forall|i: int|
                        0 <= i < ids.len() ==> self.health()[#[trigger] ids[i]] == list@[i]
                },
    {
        let keys = health_table_keys(&self.health_state);
        let mut list: Vec<NodeHealth> = Vec::new();
        let mut i: usize = 0;
        while i < keys.len()
            invariant
                i <= keys@.len(),
                keys@.to_set() == self.health().dom(),
                list@.len() == i,
                forall|j: int| 0 <= j < i ==> self.health()[#[trigger] keys@[j]] == list@[j],
            decreases keys@.len() - i,
        {
            assert(keys@.contains(keys@[i as int]));
            assert(keys@.to_set().contains(keys@[i as int]));
            match health_table_get(&self.health_state, keys[i]) {
                Some(h) => {
                    list.push(h);
                },
                None => {
                    assert(false);
                },
            }
            i = i + 1;
        }
        proof {
            keys@.unique_seq_to_set();
        }
        list
    }

    /// The number of tracked nodes.
    pub fn tracked_node_count(&self) -> (n: usize)
        ensures
            n == self.health().dom().len(),
    {
        let keys = health_table_keys(&self.health_state);
        proof {
            keys@.unique_seq_to_set();
        }
        keys.len()
    }

    /// The health of one node.
    pub fn health_of(&self, node_id: u64) -> (r: Option<NodeHealth>)
        ensures
            match r {
                Some(h) => self.health().contains_key(node_id) && h == self.health()[node_id],
                None => !self.health().contains_key(node_id),
            },
    {
        health_table_get(&self.health_state, node_id)
    }
}

proof fn lemma_push_contains(s: Seq<u64>, v: u64, x: u64)
    ensures
        s.push(v).contains(x) <==> s.contains(x) || x == v,
{
    let t = s.push(v);
    if s.contains(x) {
        let i = choose|i: int| 0 <= i < s.len() && s[i] == x;
        assert(t[i] == x);
    }
    if x == v {
        assert(t[s.len() as int] == x);
    }
    if t.contains(x) {
        let i = choose|i: int| 0 <= i < t.len() && t[i] == x;
        if i < s.len() {
            assert(s[i] == x);
        }
    }
}

/// The view behind the observation, at `now`, of the nodes in `ids`.
spec fn observed_some(
    view: ClusterView,
    health: Map<u64, NodeHealth>,
    ids: Set<u64>,
    now: u64,
) -> ClusterView {
    Map::new(
        |k: u64| view.contains_key(k) || ids.contains(k),
        |k: u64|
            if ids.contains(k) && !(view.contains_key(k) && now < view[k].1) {
                (health[k].status, now)
            } else {
                view[k]
            },
    )
}

/// The view behind the observation, at `now`, of every tracked node: what is known
/// of a later time stays.
pub open spec fn observed(view: ClusterView, health: Map<u64, NodeHealth>, now: u64) -> ClusterView {
    Map::new(
        |k: u64| view.contains_key(k) || health.contains_key(k),
        |k: u64|
            if health.contains_key(k) && !(view.contains_key(k) && now < view[k].1) {
                (health[k].status, now)
            } else {
                view[k]
            },
    )
}

/// Three failed probes in a row take a node offline, whatever it was before; two
/// do not.
pub proof fn three_failures_take_a_node_offline(h: NodeHealth)
    requires
        h.consecutive_failures == 0,
    ensures
        h.failed_once_more().failed_once_more().status == h.status,
        h.failed_once_more().failed_once_more().failed_once_more().status == NodeStatus::Offline,
{
}

/// A node that is offline stays so while its probes fail.
pub proof fn failures_never_bring_a_node_back(h: NodeHealth)
    requires
        h.status == NodeStatus::Offline,
    ensures
        h.failed_once_more().status == NodeStatus::Offline,
{
}

// ---------------------------------------------------------------------------
// Laws
// ---------------------------------------------------------------------------

/// A failed probe is counted, up to the greatest count, leaves no latency, and takes the node
/// offline from the third on; what else is known of the node stays.
pub proof fn failed_probes_are_counted(h: NodeHealth)
    ensures
        h.consecutive_failures < u8::MAX ==> h.failed_once_more().consecutive_failures
            == h.consecutive_failures + 1,
        h.consecutive_failures == u8::MAX ==> h.failed_once_more().consecutive_failures == u8::MAX,
        h.failed_once_more().latency_ms is None,
        h.consecutive_failures >= 2 ==> h.failed_once_more().status == NodeStatus::Offline,
        h.consecutive_failures < 2 ==> h.failed_once_more().status == h.status,
        h.failed_once_more().node_id == h.node_id,
        h.failed_once_more().last_seen == h.last_seen,
{
}

/// The latest hundred intervals between heartbeats are kept, in their order; an interval of
/// no time is none.
pub proof fn the_latest_intervals_are_kept(samples: Seq<u128>, interval: u128, i: int)
    requires
        samples.len() <= 100,
        interval > 0,
    ensures
        sampled(samples, 0) == samples,
        sampled(samples, interval).len() <= 100,
        sampled(samples, interval).last() == interval,
        samples.len() < 100 ==> sampled(samples, interval) == samples.push(interval),
        samples.len() == 100 && 0 <= i < 99 ==> sampled(samples, interval)[i] == samples[i + 1],
        samples.len() == 100 ==> sampled(samples, interval).len() == 100,
{
}

/// The time between two moments is told in whole milliseconds, and is none where they are
/// the other way round.
pub proof fn intervals_are_whole_milliseconds(earlier: Span, later: Span)
    ensures
        ({
            let ms = millis_between(earlier, later) as int;
            &&& later.nanos >= earlier.nanos ==> ms * 1_000_000 <= later.nanos - earlier.nanos < (
            ms + 1) * 1_000_000
            &&& later.nanos < earlier.nanos ==> ms == 0
        }),
{
}

/// A heartbeat of one node changes nothing of the others, and is the last one of its node;
/// the first heartbeat of a node makes no interval.
pub proof fn heartbeats_are_kept_by_node(
    before: FailureDetector,
    after: FailureDetector,
    node: u64,
    at: Span,
    other: u64,
)
    requires
        before.heard(after, node, at),
        other != node,
    ensures
        after.history().contains_key(node),
        after.history()[node].last_heartbeat == at,
        after.history().contains_key(other) <==> before.history().contains_key(other),
        after.history().contains_key(other) ==> after.history()[other] == before.history()[other],
        !before.history().contains_key(node) ==> after.history()[node].intervals@.len() == 0,
        before.history().contains_key(node) && at.nanos
            >= before.history()[node].last_heartbeat.nanos + 1_000_000
            ==> after.history()[node].intervals@.last() * 1_000_000 <= at.nanos
            - before.history()[node].last_heartbeat.nanos,
{
    if before.history().contains_key(node) {
        intervals_are_whole_milliseconds(before.history()[node].last_heartbeat, at);
    }
}

/// The greatest version is one of the versions, and none is greater; the copy that is handed
/// out is the first that has it.
pub proof fn the_latest_copy_is_handed_out(replicas: Seq<Replica>, i: int)
    requires
        0 <= i < replicas.len(),
    ensures
        ({
            let version = max_version(replicas);
            let k = first_with(replicas, version, 0);
            &&& replicas[i].2 <= version
            &&& 0 <= k < replicas.len()
            &&& replicas[k].2 == version
            &&& i < k ==> replicas[i].2 < version
        }),
{
    lemma_max_version(replicas);
    lemma_first_with(replicas, max_version(replicas), 0);
    let n = choose|n: int|
        0 <= n < replicas.len() && (#[trigger] replicas[n]).2 == max_version(replicas);
    let k = first_with(replicas, max_version(replicas), 0);
    if n < k {
        assert(replicas[n].2 != max_version(replicas));
    }
}

/// The nodes that have to be repaired are those whose copies are older, all of them and in
/// their order.
pub proof fn older_copies_are_repaired(replicas: Seq<Replica>, version: u64)
    ensures
        stale(replicas, version) == replicas.filter(|r: Replica| r.2 < version).map_values(
            |r: Replica| r.0,
        ),
    decreases replicas.len(),
{
    let older = |r: Replica| r.2 < version;
    let node = |r: Replica| r.0;
    reveal(Seq::filter);
    if replicas.len() > 0 {
        older_copies_are_repaired(replicas.drop_last(), version);
        let kept = replicas.drop_last().filter(older);
        if older(replicas.last()) {
            assert(kept.push(replicas.last()).map_values(node) =~= kept.map_values(node).push(
                replicas.last().0,
            ));
        }
    } else {
        assert(replicas.filter(older).map_values(node) =~= Seq::<u64>::empty());
    }
}

/// News of a node changes its status to what the view says, and nothing else of it; nodes
/// without news, and nodes that are not tracked, stay as they are.
pub proof fn news_change_the_status(
    health: Map<u64, NodeHealth>,
    changed: Seq<u64>,
    view: ClusterView,
    id: u64,
)
    ensures
        told(health, changed, view).contains_key(id) <==> health.contains_key(id),
        health.contains_key(id) && changed.contains(id) ==> told(health, changed, view)[id].status
            == view[id].0,
        health.contains_key(id) ==> told(health, changed, view)[id].node_id == health[id].node_id
            && told(health, changed, view)[id].last_seen == health[id].last_seen && told(
            health,
            changed,
            view,
        )[id].consecutive_failures == health[id].consecutive_failures && told(
            health,
            changed,
            view,
        )[id].latency_ms == health[id].latency_ms,
        health.contains_key(id) && !changed.contains(id) ==> told(health, changed, view)[id]
            == health[id],
{
}

/// A node that has left is offline for itself, and nothing else has changed.
pub proof fn leaving_takes_the_node_offline(
    before: ClusterManager,
    after: ClusterManager,
    other: u64,
)
    requires
        before.left(after),
        other != before.local_node.id,
    ensures
        before.health().contains_key(before.local_node.id)
            ==> after.health()[before.local_node.id].status == NodeStatus::Offline,
        after.health().contains_key(other) <==> before.health().contains_key(other),
        after.health().contains_key(other) ==> after.health()[other] == before.health()[other],
        after.local_node == before.local_node,
        after.router == before.router,
        after.failure_detector == before.failure_detector,
        after.gossip_manager == before.gossip_manager,
        after.read_repair == before.read_repair,
{
}

/// An observation at some time counts for every tracked node of which nothing later is known;
/// what is known of other nodes, and of later times, stays.
pub proof fn observations_count_unless_later_is_known(
    view: ClusterView,
    health: Map<u64, NodeHealth>,
    now: u64,
    id: u64,
)
    ensures
        observed(view, health, now).contains_key(id) <==> view.contains_key(id)
            || health.contains_key(id),
        health.contains_key(id) && !view.contains_key(id) ==> observed(view, health, now)[id] == (
            health[id].status,
            now,
        ),
        health.contains_key(id) && view.contains_key(id) && view[id].1 <= now ==> observed(
            view,
            health,
            now,
        )[id] == (health[id].status, now),
        view.contains_key(id) && (view[id].1 > now || !health.contains_key(id)) ==> observed(
            view,
            health,
            now,
        )[id] == view[id],
{
}

/// Nodes are probed once a second, and gossip goes out every two seconds, to two peers.
pub proof fn rounds_have_their_time()
    ensures
        HEALTH_CHECK_INTERVAL_MS == 1_000,
        GOSSIP_INTERVAL_MS == 2_000,
        GOSSIP_FANOUT == 2,
        FAILURE_THRESHOLD == 3,
        MAX_HEARTBEAT_SAMPLES == 100,
{
}

/// A repair has to write to each stale replica once, and may be at any of them or at the end.
pub proof fn repairs_write_to_each_stale_replica(run: RepairRun)
    ensures
        run.wf() <==> run.written <= run.stale_nodes@.len(),
{
}

} // verus!
