use pubsub_core::history::{HistoryBuffer, Sample};
use pubsub_core::monitor::{DeadlineStatus, LivelinessStatus};
use pubsub_core::node::{ConfigError, EndpointError, Node};
use pubsub_core::qos::{
    Durability, History, LivelinessKind, QosPolicyBuilder, QosPolicySet, Reliability,
    DURATION_INFINITE,
};
use pubsub_core::resolver::{resolve, Compatibility, PolicyKind};

fn reliable_transient_qos() -> QosPolicySet {
    QosPolicyBuilder::new()
        .history(History::KeepLast { depth: 10 })
        .reliability(Reliability::Reliable { max_blocking_time: 100 })
        .durability(Durability::TransientLocal)
        .build()
}

fn base_qos() -> QosPolicySet {
    QosPolicyBuilder::new()
        .history(History::KeepLast { depth: 10 })
        .reliability(Reliability::Reliable { max_blocking_time: 100 })
        .durability(Durability::Volatile)
        .build()
}

#[test]
fn builder_fills_defaults() {
    let q = QosPolicyBuilder::new().build();
    assert!(matches!(q.history, History::KeepLast { depth: 1 }));
    assert!(matches!(q.reliability, Reliability::BestEffort));
    assert!(matches!(q.durability, Durability::Volatile));
    assert_eq!(q.deadline_period, DURATION_INFINITE);
    assert_eq!(q.lifespan_duration, DURATION_INFINITE);
    assert!(matches!(q.liveliness, LivelinessKind::Automatic));
    assert_eq!(q.liveliness_lease, DURATION_INFINITE);
}

#[test]
fn resolve_compatible_pair_yields_effective() {
    let o = reliable_transient_qos();
    let r = base_qos();
    match resolve(&o, &r) {
        Compatibility::Compatible { effective } => {
            assert!(matches!(effective.history, History::KeepLast { depth: 10 }));
            assert!(matches!(effective.durability, Durability::Volatile));
        }
        Compatibility::Incompatible { .. } => panic!("expected a compatible pair"),
    }
}

#[test]
fn resolve_flags_each_failing_kind() {
    let o = QosPolicyBuilder::new()
        .history(History::KeepLast { depth: 1 })
        .reliability(Reliability::BestEffort)
        .durability(Durability::Volatile)
        .deadline(200)
        .liveliness(LivelinessKind::Automatic, 500)
        .build();
    let r = QosPolicyBuilder::new()
        .history(History::KeepLast { depth: 5 })
        .reliability(Reliability::Reliable { max_blocking_time: 100 })
        .durability(Durability::TransientLocal)
        .deadline(100)
        .liveliness(LivelinessKind::ManualByTopic, 100)
        .build();
    match resolve(&o, &r) {
        Compatibility::Incompatible { reasons } => {
            assert_eq!(
                reasons,
                vec![
                    PolicyKind::History,
                    PolicyKind::Reliability,
                    PolicyKind::Durability,
                    PolicyKind::Deadline,
                    PolicyKind::Liveliness,
                ]
            );
        }
        Compatibility::Compatible { .. } => panic!("expected an incompatible pair"),
    }
}

#[test]
fn resolve_keep_all_offer_satisfies_any_history() {
    let o = QosPolicyBuilder::new().history(History::KeepAll).build();
    let r = QosPolicyBuilder::new().history(History::KeepLast { depth: 100 }).build();
    assert!(matches!(resolve(&o, &r), Compatibility::Compatible { .. }));
    let r2 = QosPolicyBuilder::new().history(History::KeepAll).build();
    assert!(matches!(resolve(&o, &r2), Compatibility::Compatible { .. }));
    let o2 = QosPolicyBuilder::new().history(History::KeepLast { depth: 100 }).build();
    match resolve(&o2, &r2) {
        Compatibility::Incompatible { reasons } => assert_eq!(reasons, vec![PolicyKind::History]),
        Compatibility::Compatible { .. } => panic!("KeepLast offer cannot satisfy KeepAll request"),
    }
}

#[test]
fn keep_last_window_holds_newest_depth_samples() {
    let mut b = HistoryBuffer::new(History::KeepLast { depth: 3 }, DURATION_INFINITE, usize::MAX);
    for i in 0..5u64 {
        let accepted = b.write(
            Sample {
                payload: format!("m{}", i),
                source: 1,
                sequence_number: i + 1,
                timestamp: i,
            },
            i,
        );
        assert!(accepted);
    }
    let newest = b.read_newest_n(3, 5);
    let texts: Vec<&str> = newest.iter().map(|s| s.payload.as_str()).collect();
    assert_eq!(texts, vec!["m2", "m3", "m4"]);
    // the first two writes are unrecoverable even when asking for more
    let all = b.read_newest_n(10, 5);
    assert_eq!(all.len(), 3);
    assert_eq!(all[0].payload, "m2");
}

#[test]
fn lifespan_expiry_is_exact() {
    let mut b = HistoryBuffer::new(History::KeepLast { depth: 10 }, 100, usize::MAX);
    assert!(b.write(
        Sample { payload: "fresh".to_string(), source: 1, sequence_number: 1, timestamp: 0 },
        0,
    ));
    // readable strictly before t0 + L
    assert_eq!(b.read_newest_n(10, 99).len(), 1);
    // unreadable at exactly t0 + L, though well within depth
    assert_eq!(b.read_newest_n(10, 100).len(), 0);
    assert!(b.take(100).is_none());
}

fn one_topic_node() -> (Node, u64) {
    let mut node = Node::new();
    let tid = node
        .create_topic(
            "/".to_string(),
            "topic".to_string(),
            "String".to_string(),
            reliable_transient_qos(),
        )
        .expect("topic creation");
    (node, tid)
}

#[test]
fn matched_pair_round_trip_takes_exactly_once() {
    let (mut node, tid) = one_topic_node();
    let pid = node.create_publisher(tid, Some(reliable_transient_qos()), 0).unwrap();
    let sid = node.create_subscription(tid, Some(reliable_transient_qos()), usize::MAX, 0).unwrap();
    assert_eq!(node.matches_for(pid).len(), 1);
    node.publish(pid, "count=1".to_string(), 1).unwrap();
    let first = node.take(sid, 2).unwrap();
    assert_eq!(first.expect("one sample").payload, "count=1");
    let second = node.take(sid, 3).unwrap();
    assert!(second.is_none());
}

#[test]
fn sample_metadata_carries_provenance() {
    let (mut node, tid) = one_topic_node();
    let pid = node.create_publisher(tid, None, 0).unwrap();
    let sid = node.create_subscription(tid, None, usize::MAX, 0).unwrap();
    node.publish(pid, "a".to_string(), 7).unwrap();
    node.publish(pid, "b".to_string(), 8).unwrap();
    let s1 = node.take(sid, 9).unwrap().unwrap();
    let s2 = node.take(sid, 9).unwrap().unwrap();
    assert_eq!(s1.source, pid);
    assert_eq!(s1.sequence_number, 1);
    assert_eq!(s1.timestamp, 7);
    assert_eq!(s2.sequence_number, 2);
    assert_eq!(s2.timestamp, 8);
}

#[test]
fn delivery_is_multicast_with_independent_buffers() {
    let (mut node, tid) = one_topic_node();
    let pid = node.create_publisher(tid, None, 0).unwrap();
    let sid_a = node.create_subscription(tid, None, usize::MAX, 0).unwrap();
    let sid_b = node.create_subscription(tid, None, usize::MAX, 0).unwrap();
    node.publish(pid, "x".to_string(), 1).unwrap();
    node.publish(pid, "y".to_string(), 2).unwrap();
    // each subscription observes the full set, in arrival order
    assert_eq!(node.take(sid_a, 3).unwrap().unwrap().payload, "x");
    assert_eq!(node.take(sid_b, 3).unwrap().unwrap().payload, "x");
    assert_eq!(node.take(sid_a, 3).unwrap().unwrap().payload, "y");
    // draining one buffer does not touch the other
    assert_eq!(node.take(sid_b, 3).unwrap().unwrap().payload, "y");
    assert!(node.take(sid_a, 3).unwrap().is_none());
    assert!(node.take(sid_b, 3).unwrap().is_none());
}

#[test]
fn blocked_reliable_peer_fails_alone() {
    let (mut node, tid) = one_topic_node();
    let keep_all_reliable = QosPolicyBuilder::new()
        .history(History::KeepAll)
        .reliability(Reliability::Reliable { max_blocking_time: 100 })
        .durability(Durability::TransientLocal)
        .build();
    let pid = node.create_publisher(tid, Some(keep_all_reliable), 0).unwrap();
    // the blocked peer can hold exactly one sample and nobody drains it
    let blocked = node.create_subscription(tid, Some(keep_all_reliable), 1, 0).unwrap();
    let healthy = node.create_subscription(tid, Some(reliable_transient_qos()), usize::MAX, 0).unwrap();
    node.publish(pid, "first".to_string(), 1).unwrap();
    assert!(node.take_delivery_failure().is_none());
    // the second write cannot be accepted by the full KeepAll buffer
    node.publish(pid, "second".to_string(), 2).unwrap();
    let failure = node.take_delivery_failure().expect("a blocked-timeout report");
    assert_eq!(failure.publisher_id, pid);
    assert_eq!(failure.subscription_id, blocked);
    assert!(node.take_delivery_failure().is_none());
    // the unaffected peer still received both samples
    assert_eq!(node.take(healthy, 3).unwrap().unwrap().payload, "first");
    assert_eq!(node.take(healthy, 3).unwrap().unwrap().payload, "second");
    // the blocked peer kept only the first
    assert_eq!(node.take(blocked, 3).unwrap().unwrap().payload, "first");
    assert!(node.take(blocked, 3).unwrap().is_none());
}

#[test]
fn best_effort_peer_drops_silently() {
    let (mut node, tid) = one_topic_node();
    let offered = QosPolicyBuilder::new()
        .history(History::KeepAll)
        .reliability(Reliability::Reliable { max_blocking_time: 100 })
        .build();
    let requested = QosPolicyBuilder::new()
        .history(History::KeepAll)
        .reliability(Reliability::BestEffort)
        .build();
    let pid = node.create_publisher(tid, Some(offered), 0).unwrap();
    let sid = node.create_subscription(tid, Some(requested), 1, 0).unwrap();
    node.publish(pid, "kept".to_string(), 1).unwrap();
    node.publish(pid, "dropped".to_string(), 2).unwrap();
    // effective reliability is BestEffort: no failure surfaced anywhere
    assert!(node.take_delivery_failure().is_none());
    assert_eq!(node.take(sid, 3).unwrap().unwrap().payload, "kept");
    assert!(node.take(sid, 3).unwrap().is_none());
}

#[test]
fn scenario_reliable_transient_local_chatter() {
    let mut node = Node::new();
    let qos = reliable_transient_qos();
    let tid = node
        .create_topic("/".to_string(), "topic".to_string(), "String".to_string(), qos)
        .unwrap();
    let pid = node.create_publisher(tid, Some(qos), 0).unwrap();
    let sid = node.create_subscription(tid, Some(qos), usize::MAX, 0).unwrap();
    assert_eq!(node.matches_for(pid).len(), 1);
    assert_eq!(node.matches_for(sid).len(), 1);
    node.publish(pid, "count=1".to_string(), 10).unwrap();
    let got = node.take(sid, 11).unwrap();
    assert_eq!(got.expect("exactly one delivery").payload, "count=1");
    assert!(node.take(sid, 12).unwrap().is_none());
}

#[test]
fn scenario_durability_mismatch_never_matches() {
    let mut node = Node::new();
    let offered = QosPolicyBuilder::new()
        .history(History::KeepLast { depth: 10 })
        .reliability(Reliability::Reliable { max_blocking_time: 100 })
        .durability(Durability::Volatile)
        .build();
    let requested = QosPolicyBuilder::new()
        .history(History::KeepLast { depth: 10 })
        .reliability(Reliability::Reliable { max_blocking_time: 100 })
        .durability(Durability::TransientLocal)
        .build();
    match resolve(&offered, &requested) {
        Compatibility::Incompatible { reasons } => {
            assert_eq!(reasons, vec![PolicyKind::Durability]);
        }
        Compatibility::Compatible { .. } => panic!("expected a durability mismatch"),
    }
    let tid = node
        .create_topic("/".to_string(), "topic".to_string(), "String".to_string(), offered)
        .unwrap();
    let pid = node.create_publisher(tid, Some(offered), 0).unwrap();
    let sid = node.create_subscription(tid, Some(requested), usize::MAX, 0).unwrap();
    assert_eq!(node.matches_for(pid).len(), 0);
    assert_eq!(node.matches_for(sid).len(), 0);
    node.publish(pid, "unheard".to_string(), 1).unwrap();
    node.publish(pid, "still unheard".to_string(), 2).unwrap();
    assert!(node.take(sid, 3).unwrap().is_none());
}

#[test]
fn creation_errors_fail_fast() {
    let mut node = Node::new();
    let bad = QosPolicyBuilder::new().history(History::KeepLast { depth: 0 }).build();
    assert_eq!(
        node.create_topic("/".to_string(), "t".to_string(), "String".to_string(), bad),
        Err(ConfigError::InvalidQos)
    );
    assert_eq!(
        node.create_topic("/".to_string(), "".to_string(), "String".to_string(), base_qos()),
        Err(ConfigError::InvalidName)
    );
    let tid = node
        .create_topic("/".to_string(), "t".to_string(), "String".to_string(), base_qos())
        .unwrap();
    assert_eq!(node.create_publisher(tid + 1, None, 0), Err(ConfigError::UnknownTopic));
    assert_eq!(node.create_publisher(tid, Some(bad), 0), Err(ConfigError::InvalidQos));
    assert_eq!(
        node.create_subscription(tid + 1, None, usize::MAX, 0),
        Err(ConfigError::UnknownTopic)
    );
}

#[test]
fn destroyed_endpoint_is_fatal_to_that_call_only() {
    let (mut node, tid) = one_topic_node();
    let pid = node.create_publisher(tid, None, 0).unwrap();
    let sid = node.create_subscription(tid, None, usize::MAX, 0).unwrap();
    assert_eq!(node.matches_for(sid).len(), 1);
    node.destroy_publisher(pid).unwrap();
    // every match record referencing the publisher is gone
    assert_eq!(node.matches_for(sid).len(), 0);
    assert_eq!(node.publish(pid, "late".to_string(), 1), Err(EndpointError::EndpointDestroyed));
    assert_eq!(node.destroy_publisher(pid), Err(EndpointError::EndpointDestroyed));
    // the subscription still answers
    assert!(node.take(sid, 2).unwrap().is_none());
    node.destroy_subscription(sid).unwrap();
    assert!(matches!(node.take(sid, 3), Err(EndpointError::EndpointDestroyed)));
}

#[test]
fn readiness_is_edge_triggered() {
    let (mut node, tid) = one_topic_node();
    let pid = node.create_publisher(tid, None, 0).unwrap();
    let sid = node.create_subscription(tid, None, usize::MAX, 0).unwrap();
    assert_eq!(node.take_ready(sid).unwrap(), false);
    node.publish(pid, "a".to_string(), 1).unwrap();
    // one notification per empty-to-non-empty transition, not per sample
    node.publish(pid, "b".to_string(), 2).unwrap();
    assert_eq!(node.take_ready(sid).unwrap(), true);
    assert_eq!(node.take_ready(sid).unwrap(), false);
    // drain to empty, then the next write rearms the notification
    assert!(node.take(sid, 3).unwrap().is_some());
    assert!(node.take(sid, 3).unwrap().is_some());
    assert!(node.take(sid, 3).unwrap().is_none());
    node.publish(pid, "c".to_string(), 4).unwrap();
    assert_eq!(node.take_ready(sid).unwrap(), true);
}

#[test]
fn push_interface_yields_in_arrival_order() {
    let (mut node, tid) = one_topic_node();
    let pid = node.create_publisher(tid, None, 0).unwrap();
    let sid = node.create_subscription(tid, None, usize::MAX, 0).unwrap();
    node.publish(pid, "one".to_string(), 1).unwrap();
    node.publish(pid, "two".to_string(), 2).unwrap();
    assert_eq!(node.poll_next(sid, 3).unwrap().unwrap().payload, "one");
    assert_eq!(node.poll_next(sid, 3).unwrap().unwrap().payload, "two");
    assert!(node.poll_next(sid, 3).unwrap().is_none());
}

#[test]
fn liveliness_and_deadline_are_advisory_statuses() {
    let (mut node, tid) = one_topic_node();
    let watched = QosPolicyBuilder::new()
        .history(History::KeepLast { depth: 10 })
        .deadline(50)
        .liveliness(LivelinessKind::Automatic, 100)
        .build();
    let pid = node.create_publisher(tid, Some(watched), 0).unwrap();
    let sid = node.create_subscription(tid, Some(watched), usize::MAX, 0).unwrap();
    assert_eq!(node.liveliness_of(pid, 100).unwrap(), LivelinessStatus::Alive);
    assert_eq!(node.liveliness_of(pid, 101).unwrap(), LivelinessStatus::NotAlive);
    // a write is a qualifying assertion and restarts the lease
    node.publish(pid, "beat".to_string(), 90).unwrap();
    assert_eq!(node.liveliness_of(pid, 150).unwrap(), LivelinessStatus::Alive);
    // a manual assertion works without traffic
    node.assert_liveliness(pid, 300).unwrap();
    assert_eq!(node.liveliness_of(pid, 390).unwrap(), LivelinessStatus::Alive);
    // deadline: met within the period of the last write, missed after
    assert_eq!(node.publisher_deadline_of(pid, 140).unwrap(), DeadlineStatus::DeadlineMet);
    assert_eq!(node.publisher_deadline_of(pid, 141).unwrap(), DeadlineStatus::DeadlineMissed);
    assert_eq!(node.subscription_deadline_of(sid, 140).unwrap(), DeadlineStatus::DeadlineMet);
    assert_eq!(
        node.subscription_deadline_of(sid, 141).unwrap(),
        DeadlineStatus::DeadlineMissed
    );
}

#[test]
fn keep_last_eviction_applies_per_subscription_buffer() {
    let (mut node, tid) = one_topic_node();
    let shallow = QosPolicyBuilder::new()
        .history(History::KeepLast { depth: 1 })
        .reliability(Reliability::Reliable { max_blocking_time: 100 })
        .durability(Durability::TransientLocal)
        .build();
    let pid = node.create_publisher(tid, Some(reliable_transient_qos()), 0).unwrap();
    let sid = node.create_subscription(tid, Some(shallow), usize::MAX, 0).unwrap();
    node.publish(pid, "old".to_string(), 1).unwrap();
    node.publish(pid, "new".to_string(), 2).unwrap();
    // a slow reader under KeepLast{1} silently loses the older sample
    assert_eq!(node.take(sid, 3).unwrap().unwrap().payload, "new");
    assert!(node.take(sid, 3).unwrap().is_none());
}

#[test]
fn transient_local_history_reaches_late_joiners() {
    let (mut node, tid) = one_topic_node();
    let pid = node.create_publisher(tid, Some(reliable_transient_qos()), 0).unwrap();
    node.publish(pid, "early".to_string(), 1).unwrap();
    node.publish(pid, "later".to_string(), 2).unwrap();
    // a late joiner with TransientLocal effective durability replays the
    // publisher's retained history, in arrival order
    let sid = node.create_subscription(tid, Some(reliable_transient_qos()), usize::MAX, 3).unwrap();
    assert_eq!(node.take_ready(sid).unwrap(), true);
    assert_eq!(node.take(sid, 4).unwrap().unwrap().payload, "early");
    assert_eq!(node.take(sid, 4).unwrap().unwrap().payload, "later");
    assert!(node.take(sid, 4).unwrap().is_none());
    // a volatile requester starts from an empty buffer
    let volatile = QosPolicyBuilder::new()
        .history(History::KeepLast { depth: 10 })
        .reliability(Reliability::Reliable { max_blocking_time: 100 })
        .durability(Durability::Volatile)
        .build();
    let sid2 = node.create_subscription(tid, Some(volatile), usize::MAX, 5).unwrap();
    assert_eq!(node.take_ready(sid2).unwrap(), false);
    assert!(node.take(sid2, 6).unwrap().is_none());
}

#[test]
fn late_join_replay_skips_expired_samples() {
    let (mut node, tid) = one_topic_node();
    let short_lived = QosPolicyBuilder::new()
        .history(History::KeepLast { depth: 10 })
        .reliability(Reliability::Reliable { max_blocking_time: 100 })
        .durability(Durability::TransientLocal)
        .lifespan(100)
        .build();
    let pid = node.create_publisher(tid, Some(short_lived), 0).unwrap();
    node.publish(pid, "will expire".to_string(), 0).unwrap();
    node.publish(pid, "survives".to_string(), 50).unwrap();
    // at t = 120 the first sample is past its lifespan, the second is not
    let sid = node.create_subscription(tid, Some(short_lived), usize::MAX, 120).unwrap();
    assert_eq!(node.take(sid, 121).unwrap().unwrap().payload, "survives");
    assert!(node.take(sid, 121).unwrap().is_none());
}
