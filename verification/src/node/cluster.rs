//! The state of the cluster, as clients see it.

use vstd::prelude::*;

use crate::clock::elapsed_since;
use crate::model::cluster::{
    client_address, name_of_node, node_name, parse_client_address, parse_recorded_address,
    recorded_address, NodeAddress, NodeInfo, NodeStatus,
};
use crate::model::error::DbError;
use crate::node::cluster_manager::NodeHealth;
use crate::node::dto::{
    ClusterHealthResponse, ErrorResponse, ErrorView, JoinNodeRequest, StatsResponse,
};
use crate::node::errors::{is_not_leader, says_not_leader};
use crate::node::state::{CollectionMeta, Catalog};
use crate::table::Table;
use crate::text;

verus! {

// ---------------------------------------------------------------------------
// Health
// ---------------------------------------------------------------------------

/// A node that takes part in the cluster.
pub open spec fn is_active(h: NodeHealth) -> bool {
    h.status == NodeStatus::Leader || h.status == NodeStatus::Follower
}

/// The number of active nodes.
pub open spec fn active_count(nodes: Seq<NodeHealth>) -> nat
    decreases nodes.len(),
{
    if nodes.len() == 0 {
        0
    } else {
        active_count(nodes.drop_last()) + if is_active(nodes.last()) {
            1nat
        } else {
            0nat
        }
    }
}

/// How many nodes there are and how many of them are active.  Where none is known there is
/// this node, which is active.
pub open spec fn node_counts(nodes: Seq<NodeHealth>) -> (nat, nat) {
    if nodes.len() == 0 {
        (1, 1)
    } else {
        (nodes.len(), active_count(nodes))
    }
}

/// The cluster's health: red without a leader or a quorum, green with every node
/// active, yellow else.
pub open spec fn health_status(has_leader: bool, active: nat, nodes: nat) -> Seq<char> {
    if !has_leader {
        "red"@
    } else if active == nodes {
        "green"@
    } else if active > nodes / 2 {
        "yellow"@
    } else {
        "red"@
    }
}

/// What is told of a collection's health.
#[derive(Debug)]
pub struct CollectionHealth {
    pub name: String,
    pub docs: u64,
    pub size_bytes: u64,
}

/// The health of the cluster in full.
#[derive(Debug)]
pub struct ClusterHealthReport {
    /// `"green"`, `"yellow"` or `"red"`.
    pub status: String,
    pub cluster_name: String,
    pub number_of_nodes: u64,
    pub active_nodes: u64,
    pub leader_node: Option<u64>,
    pub raft_commit_index: i64,
    pub collections: Vec<CollectionHealth>,
}

impl ClusterHealthReport {
    /// The health of the cluster in short.
    pub fn summary(&self, is_leader: bool) -> (r: ClusterHealthResponse)
        requires
            self.number_of_nodes <= usize::MAX,
        ensures
            r.status@ == self.status@,
            r.number_of_nodes == self.number_of_nodes,
            r.leader_id == self.leader_node,
            r.is_leader == is_leader,
    {
        ClusterHealthResponse {
            status: self.status.clone(),
            number_of_nodes: self.number_of_nodes as usize,
            leader_id: self.leader_node,
            is_leader,
        }
    }
}

/// `shown` tells the health of every collection, in the registry's order.
pub open spec fn tells_collections(
    shown: Seq<CollectionHealth>,
    entries: Seq<(String, CollectionMeta)>,
) -> bool {
    &&& shown.len() == entries.len()
    &&& forall|i: int|
        0 <= i < shown.len() ==> (#[trigger] shown[i]).name@ == entries[i].0@ && shown[i].docs
            == entries[i].1.doc_count && shown[i].size_bytes == 0
}

/// The health of the cluster from the health of its nodes.
pub fn cluster_health(
    nodes: &Vec<NodeHealth>,
    registry: &Catalog,
    leader: Option<u64>,
    commit_index: i64,
) -> (r: ClusterHealthReport)
    ensures
        (r.number_of_nodes as nat, r.active_nodes as nat) == node_counts(nodes@),
        r.status@ == health_status(
            leader is Some,
            node_counts(nodes@).1,
            node_counts(nodes@).0,
        ),
        r.cluster_name@ == "msearchdb-cluster"@,
        r.leader_node == leader,
        r.raft_commit_index == commit_index,
        tells_collections(r.collections@, registry.collections.entries()),
{
    let mut active: usize = 0;
    let mut i: usize = 0;
    assert(nodes@.take(0) =~= Seq::<NodeHealth>::empty());
    while i < nodes.len()
        invariant
            i <= nodes@.len(),
            active <= i,
            active == active_count(nodes@.take(i as int)),
        decreases nodes@.len() - i,
    {
        proof {
            let next = nodes@.take(i + 1);
            assert(next.drop_last() =~= nodes@.take(i as int));
            assert(next.last() == nodes@[i as int]);
        }
        if nodes[i].status == NodeStatus::Leader || nodes[i].status == NodeStatus::Follower {
            active = active + 1;
        }
        i = i + 1;
    }
    assert(nodes@.take(i as int) =~= nodes@);
    let number_of_nodes: u64 = if nodes.len() == 0 {
        1
    } else {
        nodes.len() as u64
    };
    let active_nodes: u64 = if nodes.len() == 0 {
        1
    } else {
        active as u64
    };
    let status = if leader.is_none() {
        "red".to_owned()
    } else if active_nodes == number_of_nodes {
        "green".to_owned()
    } else if active_nodes > number_of_nodes / 2 {
        "yellow".to_owned()
    } else {
        "red".to_owned()
    };
    let n: usize = registry.collections.len();
    let mut collections: Vec<CollectionHealth> = Vec::new();
    let mut j: usize = 0;
    while j < n
        invariant
            n == registry.collections.entries().len(),
            j <= n,
            tells_collections(collections@, registry.collections.entries().take(j as int)),
        decreases n - j,
    {
        let (name, meta) = registry.collections.entry(j);
        collections.push(
            CollectionHealth { name: name.clone(), docs: meta.doc_count, size_bytes: 0 },
        );
        j = j + 1;
    }
    assert(registry.collections.entries().take(j as int) =~= registry.collections.entries());
    ClusterHealthReport {
        status,
        cluster_name: "msearchdb-cluster".to_owned(),
        number_of_nodes,
        active_nodes,
        leader_node: leader,
        raft_commit_index: commit_index,
        collections,
    }
}

/// Statistics of this node.
pub fn get_stats(registry: &Catalog, node_id: u64, is_leader: bool, current_term: u64) -> (r:
    StatsResponse)
    ensures
        r.node_id == node_id,
        r.is_leader == is_leader,
        r.collections == registry.collections@.dom().len(),
        r.current_term == current_term,
{
    StatsResponse { node_id, collections: registry.collections.len(), is_leader, current_term }
}

// ---------------------------------------------------------------------------
// Topology
// ---------------------------------------------------------------------------

/// The nodes of the cluster and its leader.
#[derive(Debug)]
pub struct ClusterState {
    pub nodes: Vec<NodeInfo>,
    pub leader: Option<u64>,
}

/// What this node says of itself where it knows of no other.
pub open spec fn self_portrait(info: NodeInfo, node_id: u64, is_leader: bool) -> bool {
    &&& info.id == node_id
    &&& info.address.host@ == "127.0.0.1"@
    &&& info.address.port == 9200
    &&& info.status == if is_leader {
        NodeStatus::Leader
    } else {
        NodeStatus::Follower
    }
}

/// What this node says of itself where it knows of no other.
pub fn describe_self(node_id: u64, is_leader: bool) -> (info: NodeInfo)
    ensures
        self_portrait(info, node_id, is_leader),
{
    NodeInfo {
        id: node_id,
        address: NodeAddress::new("127.0.0.1", 9200),
        status: if is_leader {
            NodeStatus::Leader
        } else {
            NodeStatus::Follower
        },
    }
}

/// The entries of the router that are not offline.
pub open spec fn reachable(entries: Seq<(u64, NodeInfo)>) -> Seq<NodeInfo>
    decreases entries.len(),
{
    if entries.len() == 0 {
        Seq::empty()
    } else {
        let rest = reachable(entries.drop_last());
        if entries.last().1.status != NodeStatus::Offline {
            rest.push(entries.last().1)
        } else {
            rest
        }
    }
}

/// The nodes that requests are routed to, or this node alone; and the leader.
pub fn cluster_state(
    router: &Table<u64, NodeInfo>,
    node_id: u64,
    is_leader: bool,
    leader: Option<u64>,
) -> (s: ClusterState)
    ensures
        s.leader == leader,
        if reachable(router.entries()).len() == 0 {
            s.nodes@.len() == 1 && self_portrait(s.nodes@[0], node_id, is_leader)
        } else {
            s.nodes@ == reachable(router.entries())
        },
{
    let n: usize = router.len();
    let mut nodes: Vec<NodeInfo> = Vec::new();
    let mut i: usize = 0;
    assert(router.entries().take(0) =~= Seq::<(u64, NodeInfo)>::empty());
    while i < n
        invariant
            n == router.entries().len(),
            i <= n,
            nodes@ == reachable(router.entries().take(i as int)),
        decreases n - i,
    {
        proof {
            let next = router.entries().take(i + 1);
            assert(next.drop_last() =~= router.entries().take(i as int));
            assert(next.last() == router.entries()[i as int]);
        }
        let (_, info) = router.entry(i);
        if info.status != NodeStatus::Offline {
            nodes.push(info.clone());
        }
        i = i + 1;
    }
    assert(router.entries().take(i as int) =~= router.entries());
    if nodes.len() == 0 {
        nodes.push(describe_self(node_id, is_leader));
    }
    ClusterState { nodes, leader }
}

/// A node with its health, as a listing shows it.
#[derive(Clone, Copy, Debug)]
pub struct NodeListing {
    pub id: u64,
    pub status: NodeStatus,
    pub last_seen_ms_ago: u64,
    pub consecutive_failures: u8,
    pub latency_ms: Option<u64>,
}

/// `shown` shows the node of `h`.
pub open spec fn lists(shown: NodeListing, h: NodeHealth) -> bool {
    &&& shown.id == h.node_id
    &&& shown.status == h.status
    &&& shown.consecutive_failures == h.consecutive_failures
    &&& shown.latency_ms == h.latency_ms
}

/// The tracked nodes with their health; `Err` with this node alone where none is
/// tracked.
pub fn list_nodes(health: &Vec<NodeHealth>, node_id: u64, is_leader: bool) -> (r: Result<
    Vec<NodeListing>,
    NodeInfo,
>)
    ensures
        match r {
            Ok(list) => {
                &&& health@.len() > 0
                &&& list@.len() == health@.len()
                &&& forall|i: int| 0 <= i < list@.len() ==> lists(#[trigger] list@[i], health@[i])
            },
            Err(info) => health@.len() == 0 && self_portrait(info, node_id, is_leader),
        },
{
    if health.len() == 0 {
        return Err(describe_self(node_id, is_leader));
    }
    let mut list: Vec<NodeListing> = Vec::new();
    let mut i: usize = 0;
    while i < health.len()
        invariant
            i <= health@.len(),
            list@.len() == i,
            forall|j: int| 0 <= j < i ==> lists(#[trigger] list@[j], health@[j]),
        decreases health@.len() - i,
    {
        let h = health[i];
        let ago = elapsed_since(&h.last_seen);
        list.push(
            NodeListing {
                id: h.node_id,
                status: h.status,
                last_seen_ms_ago: ago.as_millis() as u64,
                consecutive_failures: h.consecutive_failures,
                latency_ms: h.latency_ms,
            },
        );
        i = i + 1;
    }
    Ok(list)
}

// ---------------------------------------------------------------------------
// Joining
// ---------------------------------------------------------------------------

/// The answer to a node that joined.
#[derive(Clone, Copy, Debug)]
pub struct JoinNodeResponse {
    pub acknowledged: bool,
    pub node_id: u64,
}

/// Where the node that asks to join listens.
pub fn join_node(body: &JoinNodeRequest) -> (a: NodeAddress)
    ensures
        client_address(a, body.address@),
{
    parse_client_address(body.address.as_str())
}

/// Answer a node that asked to join, once the cluster has taken it in or not.
pub fn answer_join(id: u64, outcome: Result<(), DbError>) -> (r: Result<
    JoinNodeResponse,
    ErrorResponse,
>)
    ensures
        match outcome {
            Ok(_) => r matches Ok(a) && a.acknowledged && a.node_id == id,
            Err(e) => r matches Err(resp) && resp@ == ErrorView::internal(e.description()),
        },
{
    match outcome {
        Ok(_) => Ok(JoinNodeResponse { acknowledged: true, node_id: id }),
        Err(e) => Err(ErrorResponse::internal(e.message().as_str())),
    }
}

// ---------------------------------------------------------------------------
// Forwarding writes
// ---------------------------------------------------------------------------

/// What to do with a write after it was proposed here.
#[derive(Debug)]
pub enum ForwardStep {
    /// The proposal was accepted.
    Accepted,
    /// Forward the write to the node that leads.
    Forward { leader: u64, address: NodeAddress },
    /// Give up.
    Failed(DbError),
}

/// A member of the cluster: its id and its address as the cluster records it.
pub type Member = (u64, String);

/// The first member, from `from` on, with the given id; or their number.
pub open spec fn member_at(members: Seq<Member>, id: u64, from: int) -> int
    decreases members.len() - from,
{
    if from >= members.len() || members[from].0 == id {
        from
    } else {
        member_at(members, id, from + 1)
    }
}

/// The error says that another node leads.
pub open spec fn is_redirect(e: DbError) -> bool {
    e matches DbError::ConsensusError(m) && says_not_leader(m@)
}

/// Where another node leads, a write goes there; any other error stands.
pub fn propose_or_forward(
    proposed: Result<(), DbError>,
    leader: Option<u64>,
    members: &Vec<Member>,
) -> (step: ForwardStep)
    ensures
        match proposed {
            Ok(_) => step is Accepted,
            Err(e) => if !is_redirect(e) {
                step matches ForwardStep::Failed(f) && f == e
            } else {
                match leader {
                    None => step matches ForwardStep::Failed(DbError::NetworkError(m)) && m@
                        == "no leader available"@,
                    Some(id) => {
                        let at = member_at(members@, id, 0);
                        if at < members@.len() {
                            step matches ForwardStep::Forward { leader: l, address } && l == id
                                && recorded_address(address, members@[at].1@)
                        } else {
                            step matches ForwardStep::Failed(DbError::NetworkError(m)) && m@
                                == "leader "@ + node_name(id) + " not found in membership"@
                        }
                    },
                }
            },
        },
{
    let e = match proposed {
        Ok(_) => {
            return ForwardStep::Accepted;
        },
        Err(e) => e,
    };
    let redirected = match &e {
        DbError::ConsensusError(m) => is_not_leader(m.as_str()),
        _ => false,
    };
    if !redirected {
        return ForwardStep::Failed(e);
    }
    let id: u64 = match leader {
        Some(id) => id,
        None => {
            return ForwardStep::Failed(DbError::NetworkError("no leader available".to_owned()));
        },
    };
    let mut i: usize = 0;
    while i < members.len() && members[i].0 != id
        invariant
            i <= members@.len(),
            member_at(members@, id, 0) == member_at(members@, id, i as int),
        decreases members@.len() - i,
    {
        i = i + 1;
    }
    if i < members.len() {
        ForwardStep::Forward { leader: id, address: parse_recorded_address(members[i].1.as_str()) }
    } else {
        ForwardStep::Failed(
            DbError::NetworkError(
                text::concat3(
                    "leader ",
                    name_of_node(id).as_str(),
                    " not found in membership",
                ),
            ),
        )
    }
}

// ---------------------------------------------------------------------------
// Laws
// ---------------------------------------------------------------------------

/// A cluster without a leader is red; with every node active and a leader it is
/// green; with a leader it is red only where half of its nodes are gone.
pub proof fn health_follows_the_nodes(active: nat, nodes: nat)
    requires
        active <= nodes,
        nodes > 0,
    ensures
        health_status(false, active, nodes) == "red"@,
        health_status(true, nodes, nodes) == "green"@,
        2 * active > nodes && active < nodes ==> health_status(true, active, nodes) == "yellow"@,
        2 * active <= nodes ==> health_status(true, active, nodes) == "red"@,
{
}

/// The active nodes are the leaders and the followers among the nodes; a cluster that knows
/// of no node has one, this one, which is active.
pub proof fn active_nodes_are_counted(nodes: Seq<NodeHealth>)
    ensures
        active_count(nodes) == nodes.filter(
            |h: NodeHealth| h.status == NodeStatus::Leader || h.status == NodeStatus::Follower,
        ).len(),
        nodes.len() > 0 ==> node_counts(nodes) == (nodes.len(), active_count(nodes)),
        nodes.len() == 0 ==> node_counts(nodes) == (1nat, 1nat),
    decreases nodes.len(),
{
    reveal(Seq::filter);
    if nodes.len() > 0 {
        active_nodes_are_counted(nodes.drop_last());
    }
}

/// Requests are routed to the nodes that are not offline, in their order.
pub proof fn reachable_nodes_are_not_offline(entries: Seq<(u64, NodeInfo)>)
    ensures
        reachable(entries) == entries.filter(
            |e: (u64, NodeInfo)| e.1.status != NodeStatus::Offline,
        ).map_values(|e: (u64, NodeInfo)| e.1),
    decreases entries.len(),
{
    let there = |e: (u64, NodeInfo)| e.1.status != NodeStatus::Offline;
    let node = |e: (u64, NodeInfo)| e.1;
    reveal(Seq::filter);
    if entries.len() > 0 {
        reachable_nodes_are_not_offline(entries.drop_last());
        let kept = entries.drop_last().filter(there);
        if there(entries.last()) {
            assert(kept.push(entries.last()).map_values(node) =~= kept.map_values(node).push(
                entries.last().1,
            ));
        }
    } else {
        assert(entries.filter(there).map_values(node) =~= Seq::<NodeInfo>::empty());
    }
}

/// A node that knows of no other tells its number, its usual address, and whether it leads.
pub proof fn nodes_tell_of_themselves(info: NodeInfo, node_id: u64, is_leader: bool)
    requires
        self_portrait(info, node_id, is_leader),
    ensures
        info.id == node_id,
        info.address.spelled() == "127.0.0.1"@ + ":"@ + "9200"@,
        info.status == NodeStatus::Leader <==> is_leader,
        info.status == NodeStatus::Follower <==> !is_leader,
{
    reveal_strlit("9200");
    reveal_with_fuel(text::decimal, 5);
    assert(text::decimal(9200) =~= "9200"@);
}

/// The health of every collection is told, each under its name, in the registry's order and
/// with the number of its documents.
pub proof fn every_collection_is_told(
    shown: Seq<CollectionHealth>,
    entries: Seq<(String, CollectionMeta)>,
    i: int,
)
    requires
        tells_collections(shown, entries),
        0 <= i < entries.len(),
    ensures
        shown.len() == entries.len(),
        shown[i].name@ == entries[i].0@,
        shown[i].docs == entries[i].1.doc_count,
        shown[i].size_bytes == 0,
{
}

/// A listing shows of a node what is known of it.
pub proof fn listings_show_the_node(shown: NodeListing, h: NodeHealth)
    requires
        lists(shown, h),
    ensures
        shown.id == h.node_id,
        shown.status == h.status,
        shown.consecutive_failures == h.consecutive_failures,
        shown.latency_ms == h.latency_ms,
{
}

/// The place of a member is the first with its number, or behind the list.
pub proof fn members_are_found(members: Seq<Member>, id: u64, from: int)
    requires
        0 <= from <= members.len(),
    ensures
        from <= member_at(members, id, from) <= members.len(),
        member_at(members, id, from) < members.len() ==> members[member_at(
            members,
            id,
            from,
        )].0 == id,
        forall|i: int| from <= i < member_at(members, id, from) ==> (#[trigger] members[i]).0 != id,
    decreases members.len() - from,
{
    if from < members.len() && members[from].0 != id {
        members_are_found(members, id, from + 1);
    }
}

/// Only an error of the consensus says that another node leads.
pub proof fn redirects_come_from_the_consensus(e: DbError, m: String)
    ensures
        is_redirect(e) ==> e is ConsensusError,
        is_redirect(DbError::ConsensusError(m)) <==> says_not_leader(m@),
{
}

} // verus!
