use std::time::Instant;

use msearchdb::clock::Span;
use msearchdb::json::Number;
use msearchdb::model::cluster::{
    name_of_node, parse_client_address, parse_peer, parse_recorded_address, NodeAddress, NodeInfo,
    NodeStatus,
};
use msearchdb::model::consistency::ConsistencyLevel;
use msearchdb::model::document::{Document, FieldValue};
use msearchdb::model::error::DbError;
use msearchdb::node::cluster::{
    answer_join, cluster_health, cluster_state, get_stats, join_node, list_nodes,
    propose_or_forward, ForwardStep,
};
use msearchdb::node::cluster_manager::{
    ClusterManager, FailureDetector, LeaveStage, NodeHealth, ReadRepairCoordinator, Transition,
};
use msearchdb::node::dto::JoinNodeRequest;
use msearchdb::node::gossip::{GossipEntry, GossipManager, GossipMessage};
use msearchdb::node::state::Catalog;
use msearchdb::table::Table;

fn num(v: f64) -> Number {
    Number { bits: v.to_bits() }
}

// ---------------------------------------------------------------------------
// Health
// ---------------------------------------------------------------------------

#[test]
fn node_health_initial_state() {
    let health = NodeHealth::new(1);
    assert_eq!(health.node_id, 1);
    assert_eq!(health.consecutive_failures, 0);
    assert!(health.is_online());
    assert!(health.latency_ms.is_none());
}

#[test]
fn node_health_record_success_updates_fields() {
    let mut health = NodeHealth::new(1);
    let came_back = health.record_success(42);
    assert!(!came_back);
    assert_eq!(health.latency_ms, Some(42));
    assert_eq!(health.consecutive_failures, 0);
    assert!(health.is_online());
}

#[test]
fn node_health_goes_offline_after_threshold() {
    let mut health = NodeHealth::new(1);

    assert!(!health.record_failure());
    assert_eq!(health.consecutive_failures, 1);
    assert!(health.is_online());

    assert!(!health.record_failure());
    assert_eq!(health.consecutive_failures, 2);
    assert!(health.is_online());

    assert!(health.record_failure());
    assert_eq!(health.consecutive_failures, 3);
    assert!(!health.is_online());
    assert_eq!(health.status, NodeStatus::Offline);
}

#[test]
fn node_health_comes_back_online() {
    let mut health = NodeHealth::new(1);

    health.record_failure();
    health.record_failure();
    health.record_failure();
    assert!(!health.is_online());

    let came_back = health.record_success(10);
    assert!(came_back);
    assert!(health.is_online());
    assert_eq!(health.consecutive_failures, 0);
}

#[test]
fn node_health_failure_saturates_at_u8_max() {
    let mut health = NodeHealth::new(1);
    for _ in 0..300 {
        health.record_failure();
    }
    assert_eq!(health.consecutive_failures, 255);
}

#[test]
fn node_health_repeated_offline_does_not_re_trigger() {
    let mut health = NodeHealth::new(1);

    health.record_failure();
    health.record_failure();
    let first = health.record_failure();
    assert!(first);

    let second = health.record_failure();
    assert!(!second);
}

#[test]
fn health_remembers_when_a_node_was_seen() {
    let before = Instant::now();
    let mut health = NodeHealth::new(1);
    assert!(health.last_seen >= before);
    let made = health.last_seen;
    health.record_success(1);
    assert!(health.last_seen >= made);
}

// ---------------------------------------------------------------------------
// Heartbeats
// ---------------------------------------------------------------------------

#[test]
fn phi_accrual_not_enough_samples() {
    let mut detector = FailureDetector::new();

    detector.report_heartbeat(1);
    assert!(detector.window(1).is_none());
}

#[test]
fn heartbeats_leave_their_intervals() {
    let mut detector = FailureDetector::new();
    for i in 0..20u64 {
        detector.report_heartbeat_at(1, Span::from_millis(i * 1000));
    }
    let window = detector.window_at(1, Span::from_millis(19_000 + 30_000)).unwrap();
    assert_eq!(window.elapsed_ms, 30_000);
    assert_eq!(window.intervals, vec![1000u128; 19]);

    let at_once = detector.window_at(1, Span::from_millis(19_000)).unwrap();
    assert_eq!(at_once.elapsed_ms, 0);
}

#[test]
fn phi_accrual_remove_node_clears_state() {
    let mut detector = FailureDetector::new();

    detector.report_heartbeat(1);
    detector.report_heartbeat(1);

    detector.remove_node(1);
    assert!(detector.window(1).is_none());
}

// ---------------------------------------------------------------------------
// Gossip
// ---------------------------------------------------------------------------

#[test]
fn gossip_merge_latest_timestamp_wins() {
    let mut manager = GossipManager::new(1);

    manager.update_local(2, NodeStatus::Follower, 100);

    let message = GossipMessage {
        from: 3,
        cluster_view: vec![GossipEntry {
            node_id: 2,
            status: NodeStatus::Offline,
            timestamp: 200,
        }],
    };

    let changed = manager.merge(&message);
    assert_eq!(changed.len(), 1);
    assert_eq!(changed[0], 2);

    assert_eq!(manager.status_of(2).unwrap().0, NodeStatus::Offline);
}

#[test]
fn gossip_merge_old_timestamp_ignored() {
    let mut manager = GossipManager::new(1);

    manager.update_local(2, NodeStatus::Offline, 200);

    let message = GossipMessage {
        from: 3,
        cluster_view: vec![GossipEntry {
            node_id: 2,
            status: NodeStatus::Follower,
            timestamp: 100,
        }],
    };

    let changed = manager.merge(&message);
    assert!(changed.is_empty());

    assert_eq!(manager.status_of(2).unwrap().0, NodeStatus::Offline);
}

#[test]
fn gossip_three_nodes_converge() {
    let mut mgr1 = GossipManager::new(1);
    let mut mgr2 = GossipManager::new(2);
    let mut mgr3 = GossipManager::new(3);

    mgr1.update_local(2, NodeStatus::Follower, 100);
    mgr1.update_local(3, NodeStatus::Follower, 100);

    mgr2.update_local(3, NodeStatus::Offline, 200);
    mgr2.update_local(1, NodeStatus::Leader, 150);

    mgr3.update_local(1, NodeStatus::Follower, 50);
    mgr3.update_local(2, NodeStatus::Follower, 50);

    let msg2 = mgr2.build_message();
    mgr1.merge(&msg2);

    assert_eq!(mgr1.status_of(3).unwrap().0, NodeStatus::Offline);
    assert_eq!(mgr1.status_of(1).unwrap().0, NodeStatus::Leader);

    let msg1 = mgr1.build_message();
    mgr3.merge(&msg1);

    assert_eq!(mgr3.status_of(1).unwrap().0, NodeStatus::Leader);
    assert_eq!(mgr3.status_of(3).unwrap().0, NodeStatus::Offline);
}

#[test]
fn gossip_build_message_includes_all_entries() {
    let mut manager = GossipManager::new(1);
    manager.update_local(1, NodeStatus::Leader, 100);
    manager.update_local(2, NodeStatus::Follower, 100);
    manager.update_local(3, NodeStatus::Follower, 100);

    let msg = manager.build_message();
    assert_eq!(msg.from, 1);
    assert_eq!(msg.cluster_view.len(), 3);
}

#[test]
fn gossip_select_targets_excludes_self_and_offline() {
    let mut manager = GossipManager::new(1);
    manager.update_local(1, NodeStatus::Leader, 100);
    manager.update_local(2, NodeStatus::Follower, 100);
    manager.update_local(3, NodeStatus::Offline, 100);
    manager.update_local(4, NodeStatus::Follower, 100);

    let targets = manager.select_gossip_targets(2);
    assert!(targets.len() <= 2);
    for t in &targets {
        assert_ne!(*t, 1);
        assert_ne!(*t, 3);
    }
}

// ---------------------------------------------------------------------------
// Read repair
// ---------------------------------------------------------------------------

fn doc(field: &str, value: FieldValue) -> Document {
    Document::new("doc-1").with_field(field, value)
}

fn text(s: &str) -> FieldValue {
    FieldValue::Text(s.to_owned())
}

#[test]
fn read_repair_all_same_version() {
    let coord = ReadRepairCoordinator::new(3);

    let replicas = vec![
        (1, doc("title", text("hello")), 5),
        (2, doc("title", text("hello")), 5),
        (3, doc("title", text("hello")), 5),
    ];

    let result = coord.compare_replicas(&replicas);
    assert!(result.is_none(), "all same version => no repair needed");
}

#[test]
fn read_repair_detects_stale_replicas() {
    let coord = ReadRepairCoordinator::new(3);

    let replicas = vec![
        (1, doc("title", text("new")), 10),
        (2, doc("title", text("old")), 5),
        (3, doc("title", text("old")), 3),
    ];

    let result = coord.compare_replicas(&replicas);
    assert!(result.is_some());

    let comparison = result.unwrap();
    assert_eq!(comparison.latest_version, 10);
    assert_eq!(comparison.latest.id, "doc-1");
    assert_eq!(comparison.stale_nodes.len(), 2);
    assert!(comparison.stale_nodes.contains(&2));
    assert!(comparison.stale_nodes.contains(&3));
}

#[test]
fn read_repair_single_stale_replica() {
    let coord = ReadRepairCoordinator::new(3);

    let replicas = vec![
        (1, doc("v", FieldValue::Number(num(2.0))), 2),
        (2, doc("v", FieldValue::Number(num(2.0))), 2),
        (3, doc("v", FieldValue::Number(num(1.0))), 1),
    ];

    let result = coord.compare_replicas(&replicas);
    assert!(result.is_some());

    let comparison = result.unwrap();
    assert_eq!(comparison.latest_version, 2);
    assert_eq!(comparison.stale_nodes, vec![3]);
}

#[test]
fn read_repair_empty_replicas() {
    let coord = ReadRepairCoordinator::new(3);
    let result = coord.compare_replicas(&vec![]);
    assert!(result.is_none());
}

#[test]
fn read_repair_coordinator_replication_factor() {
    let coord = ReadRepairCoordinator::new(5);
    assert_eq!(coord.replication_factor(), 5);
}

// ---------------------------------------------------------------------------
// The manager of the cluster
// ---------------------------------------------------------------------------

fn node(id: u64, host: &str, status: NodeStatus) -> NodeInfo {
    NodeInfo {
        id,
        address: NodeAddress::new(host, 9300),
        status,
    }
}

fn make_test_cluster_manager() -> ClusterManager {
    let local = node(1, "127.0.0.1", NodeStatus::Leader);
    let mut router = Table::new();
    router.insert(1, node(1, "127.0.0.1", NodeStatus::Leader));
    ClusterManager::new(local, router, 3)
}

#[test]
fn cluster_manager_tracks_registered_nodes() {
    let mut manager = make_test_cluster_manager();

    assert_eq!(manager.tracked_node_count(), 1);

    manager.register_node(node(2, "10.0.0.2", NodeStatus::Follower));
    assert_eq!(manager.tracked_node_count(), 2);

    assert!(manager.health_state.contains_key(&2));
}

#[test]
fn cluster_manager_deregisters_node() {
    let mut manager = make_test_cluster_manager();

    manager.register_node(node(2, "10.0.0.2", NodeStatus::Follower));
    assert_eq!(manager.tracked_node_count(), 2);

    manager.deregister_node(2);
    assert_eq!(manager.tracked_node_count(), 1);
    assert!(!manager.health_state.contains_key(&2));
}

#[test]
fn cluster_manager_read_repair_repairs_stale() {
    let manager = make_test_cluster_manager();

    let version = |v: f64| Document::new("repair-1").with_field("v", FieldValue::Number(num(v)));
    let replicas = vec![(1, version(2.0), 10), (2, version(1.0), 5)];

    let mut run = manager.read_repair("repair-1", &replicas).unwrap();
    assert_eq!(run.next_node(), Some(2));
    assert!(run.on_written(Ok(())).is_ok());
    assert_eq!(run.next_node(), None);
    let doc = run.finish();
    match doc.get_field("v") {
        Some(FieldValue::Number(n)) => assert_eq!(*n, num(2.0)),
        other => panic!("got {:?}", other),
    }

    let stale_here = vec![(1, version(1.0), 5), (2, version(2.0), 10), (3, version(1.5), 7)];
    let mut run = manager.read_repair("repair-1", &stale_here).unwrap();
    assert_eq!(run.stale_nodes, vec![1, 3]);
    assert!(run.on_written(Ok(())).is_ok());
    let lost = run.on_written(Err(DbError::NetworkError("gone".to_owned())));
    assert!(matches!(lost, Err(DbError::NetworkError(_))));
    assert_eq!(run.next_node(), Some(3));

    let alike = vec![(1, version(1.0), 5), (2, version(1.0), 5)];
    assert_eq!(manager.read_repair("repair-1", &alike).unwrap().next_node(), None);
    assert!(matches!(manager.read_repair("repair-1", &vec![]), Err(DbError::NotFound(_))));
}

#[test]
fn cluster_manager_health_snapshot() {
    let manager = make_test_cluster_manager();

    let snapshot = manager.health_snapshot();
    assert_eq!(snapshot.len(), 1);
    assert_eq!(snapshot[0].node_id, 1);
}

#[test]
fn cluster_manager_leave_cluster() {
    let mut manager = make_test_cluster_manager();
    manager.leave_cluster();

    let health = manager.health_of(1).unwrap();
    assert_eq!(health.status, NodeStatus::Offline);
}

#[test]
fn a_node_leaves_once_the_cluster_lets_it_go() {
    let mut manager = make_test_cluster_manager();
    let mut run = manager.leave_request();
    assert_eq!((run.node_id, run.stage), (1, LeaveStage::Remove));
    assert!(run.on_removed(Err(DbError::ConsensusError("no leader".to_owned()))).is_err());
    assert_eq!(run.stage, LeaveStage::Done);
    assert_ne!(manager.health_of(1).unwrap().status, NodeStatus::Offline);

    let mut run = manager.leave_request();
    assert!(run.on_removed(Ok(())).is_ok());
    assert_eq!(run.stage, LeaveStage::Drain);
    assert_ne!(manager.health_of(1).unwrap().status, NodeStatus::Offline);
    run.on_drained(&mut manager);
    assert_eq!(run.stage, LeaveStage::Done);
    assert_eq!(manager.health_of(1).unwrap().status, NodeStatus::Offline);
}

#[test]
fn probes_move_nodes_in_and_out_of_the_router() {
    let mut manager = make_test_cluster_manager();
    manager.register_node(node(2, "10.0.0.2", NodeStatus::Follower));
    assert_eq!(manager.health_check_targets(), vec![2]);
    assert_eq!(manager.ping_address(2).unwrap().host, "10.0.0.2");
    assert!(manager.ping_address(9).is_err());

    assert_eq!(manager.on_probe(2, true, 7), Transition::Steady);
    assert_eq!(manager.health_of(2).unwrap().latency_ms, Some(7));
    assert_eq!(manager.on_probe(2, false, 0), Transition::Steady);
    assert_eq!(manager.on_probe(2, false, 0), Transition::Steady);
    assert_eq!(manager.on_probe(2, false, 0), Transition::WentOffline);
    assert!(!manager.router.contains_key(&2));
    assert_eq!(manager.on_probe(2, true, 3), Transition::CameBack);
    assert!(manager.health_of(2).unwrap().is_online());
}

#[test]
fn gossip_rounds_tell_what_is_known() {
    let mut manager = make_test_cluster_manager();
    manager.register_node(node(2, "10.0.0.2", NodeStatus::Follower));
    let (message, targets) = manager.gossip_round(50);
    assert_eq!(message.from, 1);
    assert_eq!(targets, vec![2]);

    let changed = manager.handle_gossip(&GossipMessage {
        from: 2,
        cluster_view: vec![GossipEntry {
            node_id: 3,
            status: NodeStatus::Follower,
            timestamp: 60,
        }],
    });
    assert_eq!(changed, vec![3]);

    // A tracked node has the status that a peer told.
    let told = manager.handle_gossip(&GossipMessage {
        from: 3,
        cluster_view: vec![GossipEntry {
            node_id: 2,
            status: NodeStatus::Offline,
            timestamp: u64::MAX,
        }],
    });
    assert_eq!(told, vec![2]);
    let nodes = manager.health_snapshot();
    let two = nodes.iter().find(|h| h.node_id == 2).unwrap();
    assert_eq!(two.status, NodeStatus::Offline);
    assert!(nodes.iter().all(|h| h.node_id != 3));
    let (id, address) = manager.join_request();
    assert_eq!((id, address.as_str()), (1, "127.0.0.1:9300"));
}

// ---------------------------------------------------------------------------
// Answers about the cluster
// ---------------------------------------------------------------------------

#[test]
fn health_of_the_cluster_is_summed_up() {
    let catalog = Catalog::new();
    let mut down = NodeHealth::new(2);
    for _ in 0..3 {
        down.record_failure();
    }
    let nodes = vec![NodeHealth::new(1), down, NodeHealth::new(3)];
    let report = cluster_health(&nodes, &catalog, Some(1), 12);
    assert_eq!((report.number_of_nodes, report.active_nodes), (3, 2));
    assert_eq!(report.status, "yellow");
    assert_eq!(report.leader_node, Some(1));

    let green = cluster_health(&vec![NodeHealth::new(1)], &catalog, Some(1), 0);
    assert_eq!(green.status, "green");
    // A single node that is offline is no quorum; where no node is known there is this one.
    let mut alone = NodeHealth::new(1);
    for _ in 0..3 {
        alone.record_failure();
    }
    let lost = cluster_health(&vec![alone], &catalog, Some(1), 0);
    assert_eq!((lost.status.as_str(), lost.number_of_nodes, lost.active_nodes), ("red", 1, 0));
    let unknown = cluster_health(&vec![], &catalog, Some(1), 0);
    assert_eq!((unknown.status.as_str(), unknown.active_nodes), ("green", 1));
    let red = cluster_health(&vec![NodeHealth::new(1)], &catalog, None, 0);
    assert_eq!(red.status, "red");
    let summary = green.summary(true);
    assert_eq!((summary.status.as_str(), summary.number_of_nodes), ("green", 1));
    assert!(summary.is_leader);
}

#[test]
fn state_and_listing_fall_back_on_this_node() {
    let empty: Table<u64, NodeInfo> = Table::new();
    let state = cluster_state(&empty, 4, true, Some(4));
    assert_eq!((state.nodes.len(), state.nodes[0].id), (1, 4));
    assert_eq!(state.nodes[0].status, NodeStatus::Leader);

    assert_eq!(list_nodes(&vec![], 4, false).unwrap_err().id, 4);
    assert_eq!(list_nodes(&vec![NodeHealth::new(2)], 4, false).unwrap().len(), 1);

    let stats = get_stats(&Catalog::new(), 4, false, 7);
    assert_eq!((stats.node_id, stats.collections, stats.current_term), (4, 0, 7));
}

#[test]
fn joining_nodes_are_answered() {
    let addr = join_node(&JoinNodeRequest { address: "10.0.0.2:9301".to_owned() });
    assert_eq!((addr.host.as_str(), addr.port), ("10.0.0.2", 9301));
    assert!(answer_join(2, Ok(())).unwrap().acknowledged);
    let refused = answer_join(2, Err(DbError::ConsensusError("busy".to_owned()))).unwrap_err();
    assert_eq!(refused.status, 500);
}

#[test]
fn writes_go_on_to_the_leader() {
    let not_leader = || Err(DbError::ConsensusError("not leader".to_owned()));
    let members = vec![(2, "10.0.0.2:9301".to_owned())];
    assert!(matches!(propose_or_forward(Ok(()), None, &members), ForwardStep::Accepted));
    match propose_or_forward(not_leader(), Some(2), &members) {
        ForwardStep::Forward { leader, address } => {
            assert_eq!((leader, address.host.as_str(), address.port), (2, "10.0.0.2", 9301));
        }
        other => panic!("got {:?}", other),
    }
    match propose_or_forward(not_leader(), None, &members) {
        ForwardStep::Failed(DbError::NetworkError(m)) => assert_eq!(m, "no leader available"),
        other => panic!("got {:?}", other),
    }
    match propose_or_forward(not_leader(), Some(7), &members) {
        ForwardStep::Failed(DbError::NetworkError(m)) => {
            assert_eq!(m, "leader node-7 not found in membership")
        }
        other => panic!("got {:?}", other),
    }
    match propose_or_forward(Err(DbError::StorageError("full".to_owned())), Some(2), &members) {
        ForwardStep::Failed(DbError::StorageError(m)) => assert_eq!(m, "full"),
        other => panic!("got {:?}", other),
    }
}

// ---------------------------------------------------------------------------
// Addresses and levels
// ---------------------------------------------------------------------------

#[test]
fn addresses_are_read_and_written() {
    assert_eq!(NodeAddress::new("db", 9300).display(), "db:9300");
    assert_eq!(name_of_node(3), "node-3");
    let a = parse_client_address("10.0.0.1:80");
    assert_eq!((a.host.as_str(), a.port), ("10.0.0.1", 80));
    let b = parse_recorded_address("10.0.0.1");
    assert_eq!((b.host.as_str(), b.port), ("10.0.0.1", 9300));
    let c = parse_peer("10.0.0.2:9301").unwrap();
    assert_eq!((c.host.as_str(), c.port), ("10.0.0.2", 9301));
    assert!(parse_peer("10.0.0.2:port").is_none());
    assert!(parse_peer("nonsense").is_none());
}

#[test]
fn consistency_levels_ask_for_their_share() {
    assert_eq!(ConsistencyLevel::from_str_param("all"), ConsistencyLevel::All);
    assert_eq!(ConsistencyLevel::from_str_param("one"), ConsistencyLevel::One);
    assert_eq!(ConsistencyLevel::from_str_param("anything"), ConsistencyLevel::Quorum);
    assert_eq!(ConsistencyLevel::One.required_responses(5), 1);
    assert_eq!(ConsistencyLevel::Quorum.required_responses(5), 3);
    assert_eq!(ConsistencyLevel::All.required_responses(5), 5);
}
