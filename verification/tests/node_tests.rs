use manifestation_core::identity::UserIdentity;
use manifestation_core::network::dedup::{SeenCache, SEEN_CAPACITY};
use manifestation_core::network::digest::message_id;
use manifestation_core::network::node::{
    CommandAction, DecodedEnvelope, InboundMessage, InboundOutcome, NetworkEvent, NodePhase,
    PeerAddress, PeerChange, PeerNode,
};
use manifestation_core::network::types::{
    CategoryScore, CategoryScores, Command, ManifestationResult, NetworkScoresCache,
    SignedManifestation, ValidationError,
};

const NOW: u64 = 1_700_000_000;

fn payload_of(score: f64, categories: &[(&str, f64)]) -> ManifestationResult {
    ManifestationResult {
        score: score.to_bits(),
        timestamp: NOW,
        category_scores: categories
            .iter()
            .map(|(k, v)| CategoryScore {
                category: k.to_string(),
                score: v.to_bits(),
            })
            .collect(),
    }
}

fn canonical_of(r: &ManifestationResult) -> Vec<u8> {
    let mut s = String::from("{\"score\":");
    s.push_str(&serde_json::to_string(&f64::from_bits(r.score)).unwrap());
    s.push_str(",\"timestamp\":");
    s.push_str(&r.timestamp.to_string());
    s.push_str(",\"category_scores\":{");
    for (i, c) in r.category_scores.iter().enumerate() {
        if i > 0 {
            s.push(',');
        }
        s.push_str(&serde_json::to_string(&c.category).unwrap());
        s.push(':');
        s.push_str(&serde_json::to_string(&f64::from_bits(c.score)).unwrap());
    }
    s.push_str("}}");
    s.into_bytes()
}

/// The message that carries the envelope, with its size on the wire.
fn message_of(envelope: &SignedManifestation) -> (Vec<u8>, InboundMessage) {
    let canonical = canonical_of(&envelope.payload);
    let mut wire = String::from("{\"payload\":");
    wire.push_str(std::str::from_utf8(&canonical).unwrap());
    wire.push_str(",\"public_key\":");
    wire.push_str(&serde_json::to_string(&envelope.public_key).unwrap());
    wire.push_str(",\"signature\":");
    wire.push_str(&serde_json::to_string(&envelope.signature).unwrap());
    wire.push('}');
    let id = message_id(wire.as_bytes());
    let message = InboundMessage {
        size: wire.len(),
        decoded: Some(DecodedEnvelope {
            envelope: envelope.clone(),
            canonical,
        }),
    };
    (id, message)
}

fn signed(identity: &UserIdentity, payload: ManifestationResult) -> SignedManifestation {
    let bytes = canonical_of(&payload);
    SignedManifestation::new(payload, &bytes, identity).unwrap()
}

#[test]
fn same_message_twice_counts_once() {
    let identity = UserIdentity::generate();
    let mut node = PeerNode::new(None, vec![]);
    let envelope = signed(&identity, payload_of(75.0, &[("focus", 8.0)]));
    let (id, message) = message_of(&envelope);

    let first = node.process_message(id.clone(), &message, Some(NOW));
    assert!(matches!(first, InboundOutcome::Accepted));
    assert_eq!(node.total_manifestations(), 1);
    assert_eq!(node.bandwidth_in(), message.size as u64);
    assert_eq!(node.window().len(), 1);

    for _ in 0..5 {
        let again = node.process_message(id.clone(), &message, Some(NOW));
        assert!(matches!(again, InboundOutcome::Duplicate));
        assert_eq!(node.total_manifestations(), 1);
        assert_eq!(node.bandwidth_in(), message.size as u64);
        assert_eq!(node.window().len(), 1);
    }

    // Through the events: a snapshot follows the first delivery only.
    let mut node = PeerNode::new(None, vec![]);
    let (id, message) = message_of(&envelope);
    let first = node.handle_swarm_event(NetworkEvent::Message { id, message });
    assert!(first.emit_stats);
    assert!(matches!(first.peers, PeerChange::Unchanged));
    assert!(matches!(first.outcome, Some(InboundOutcome::Accepted)));
    let (id, message) = message_of(&envelope);
    let second = node.handle_swarm_event(NetworkEvent::Message { id, message });
    assert!(!second.emit_stats);
    assert!(matches!(second.outcome, Some(InboundOutcome::Duplicate)));
    assert_eq!(node.total_manifestations(), 1);
}

#[test]
fn message_that_fails_is_still_remembered_and_counted() {
    let identity = UserIdentity::generate();
    let mut node = PeerNode::new(None, vec![]);

    // Bytes that are no envelope.
    let garbage = InboundMessage {
        size: 17,
        decoded: None,
    };
    let outcome = node.process_message(b"id-1".to_vec(), &garbage, Some(NOW));
    assert!(matches!(outcome, InboundOutcome::Unparseable));
    assert_eq!(node.bandwidth_in(), 17);
    assert_eq!(node.total_manifestations(), 0);
    let outcome = node.process_message(b"id-1".to_vec(), &garbage, Some(NOW));
    assert!(matches!(outcome, InboundOutcome::Duplicate));
    assert_eq!(node.bandwidth_in(), 17);

    // A signature that does not cover the payload.
    let mut forged = signed(&identity, payload_of(75.0, &[]));
    forged.payload.score = 76.0f64.to_bits();
    let (id, message) = message_of(&forged);
    let outcome = node.process_message(id, &message, Some(NOW));
    assert!(matches!(outcome, InboundOutcome::InvalidSignature));
    assert_eq!(node.bandwidth_in(), 17 + message.size as u64);
    assert_eq!(node.window().len(), 0);

    // A payload that is signed but not valid.
    let invalid = signed(&identity, payload_of(75.0, &[("user@example.com", 5.0)]));
    let (id, message) = message_of(&invalid);
    let before = node.bandwidth_in();
    let outcome = node.process_message(id, &message, Some(NOW));
    assert!(matches!(
        outcome,
        InboundOutcome::Invalid(ValidationError::CategoryPii { .. })
    ));
    assert_eq!(node.bandwidth_in(), before + message.size as u64);
    assert_eq!(node.total_manifestations(), 0);
    assert_eq!(node.window().len(), 0);

    // A payload from the future, and one under a clock that cannot be read.
    let late = signed(&identity, payload_of(1.0, &[]));
    let (id, message) = message_of(&late);
    let outcome = node.process_message(id, &message, Some(NOW - 301));
    assert!(matches!(
        outcome,
        InboundOutcome::Invalid(ValidationError::TimestampInFuture { .. })
    ));
    let other = signed(&identity, payload_of(2.0, &[]));
    let (id, message) = message_of(&other);
    let outcome = node.process_message(id, &message, None);
    assert!(matches!(
        outcome,
        InboundOutcome::Invalid(ValidationError::ClockBeforeEpoch)
    ));
    assert_eq!(node.total_manifestations(), 0);
}

#[test]
fn message_is_validated_against_the_system_clock() {
    let identity = UserIdentity::generate();
    let mut node = PeerNode::new(None, vec![]);
    let envelope = signed(&identity, payload_of(75.0, &[("focus", 8.0)]));
    let (id, message) = message_of(&envelope);
    let outcome = node.handle_gossip_message(id, &message);
    assert!(matches!(outcome, InboundOutcome::Accepted));
    let mut future = payload_of(75.0, &[]);
    future.timestamp = u64::MAX;
    let (id, message) = message_of(&signed(&identity, future));
    let outcome = node.handle_gossip_message(id, &message);
    assert!(matches!(
        outcome,
        InboundOutcome::Invalid(ValidationError::TimestampInFuture { .. })
    ));
    assert_eq!(node.total_manifestations(), 1);
}

#[test]
fn node_starts_from_the_persisted_window() {
    let cache = NetworkScoresCache {
        scores: vec![1.0f64.to_bits(), 2.0f64.to_bits(), 3.0f64.to_bits()],
        category_scores: vec![CategoryScores {
            category: "focus".to_string(),
            scores: vec![5.0f64.to_bits()],
        }],
    };
    let node = PeerNode::new(Some(cache), vec![]);
    assert_eq!(node.phase(), NodePhase::Initialized);
    assert_eq!(node.total_manifestations(), 3);
    assert_eq!(node.window().len(), 3);
    assert_eq!(node.bandwidth_in(), 0);
    assert_eq!(node.bandwidth_out(), 0);
    let saved = node.save_cache();
    assert_eq!(saved.scores.len(), 3);
    assert_eq!(saved.category_scores[0].category, "focus");

    let node = PeerNode::new(None, vec![]);
    assert_eq!(node.total_manifestations(), 0);
    let broken = NetworkScoresCache {
        scores: vec![0; 10_001],
        category_scores: vec![],
    };
    let node = PeerNode::new(Some(broken), vec![]);
    assert_eq!(node.total_manifestations(), 0);
    assert_eq!(node.window().len(), 0);
}

#[test]
fn snapshot_reports_what_the_node_holds() {
    let identity = UserIdentity::generate();
    let mut node = PeerNode::new(None, vec![]);
    let empty = node.get_stats(vec![]);
    assert_eq!(empty.peer_count, 0);
    assert_eq!(empty.total_manifestations, 0);
    assert_eq!(empty.avg_score, None);
    assert_eq!(empty.percentile_90, None);
    assert!(empty.category_stats.is_empty());

    let mut wire = 0u64;
    for i in 1..=10u32 {
        let envelope = signed(&identity, payload_of((i * 10) as f64, &[("focus", i as f64)]));
        let (id, message) = message_of(&envelope);
        wire += message.size as u64;
        let outcome = node.process_message(id, &message, Some(NOW));
        assert!(matches!(outcome, InboundOutcome::Accepted));
    }
    let stats = node.get_stats(vec!["peer-a".to_string(), "peer-b".to_string()]);
    assert_eq!(stats.peer_count, 2);
    assert_eq!(stats.connected_peers, vec!["peer-a", "peer-b"]);
    assert_eq!(stats.total_manifestations, 10);
    assert_eq!(stats.avg_score.map(f64::from_bits), Some(55.0));
    assert_eq!(stats.percentile_90.map(f64::from_bits), Some(100.0));
    assert_eq!(stats.category_stats.len(), 1);
    assert_eq!(stats.category_stats[0].category, "focus");
    assert_eq!(f64::from_bits(stats.category_stats[0].avg), 5.5);
    assert_eq!(f64::from_bits(stats.category_stats[0].p90), 10.0);
    assert_eq!(stats.bandwidth_in, wire);
    assert_eq!(stats.bandwidth_out, 0);
}

#[test]
fn commands_are_answered() {
    let mut node = PeerNode::new(None, vec![]);
    let outcome = node.handle_command(Some(Command::StartListening {
        addr: "/ip4/0.0.0.0/tcp/0".to_string(),
    }));
    assert!(outcome.keep_running);
    assert!(matches!(outcome.action, CommandAction::Listen { addr } if addr == "/ip4/0.0.0.0/tcp/0"));

    let outcome = node.handle_command(Some(Command::Publish {
        topic: "manifestation-global".to_string(),
        message: vec![1, 2, 3, 4, 5],
    }));
    assert!(outcome.keep_running);
    assert!(matches!(
        outcome.action,
        CommandAction::Publish { topic, message }
            if topic == "manifestation-global" && message == vec![1, 2, 3, 4, 5]
    ));
    assert_eq!(node.bandwidth_out(), 5);
    let _ = node.handle_command(Some(Command::Publish {
        topic: "other".to_string(),
        message: vec![0; 100],
    }));
    assert_eq!(node.bandwidth_out(), 105);
    assert_eq!(node.bandwidth_in(), 0);

    let outcome = node.handle_command(Some(Command::GetPeers));
    assert!(outcome.keep_running);
    assert!(matches!(outcome.action, CommandAction::ReportPeers));
    assert_eq!(node.phase(), NodePhase::Initialized);

    let outcome = node.handle_command(Some(Command::Shutdown));
    assert!(!outcome.keep_running);
    assert!(matches!(outcome.action, CommandAction::SaveCache { cache } if cache.scores.is_empty()));
    assert_eq!(node.phase(), NodePhase::Stopped);

    let mut node = PeerNode::new(None, vec![]);
    let outcome = node.handle_command(None);
    assert!(!outcome.keep_running);
    assert!(matches!(outcome.action, CommandAction::Idle));
    assert_eq!(node.phase(), NodePhase::Stopped);
}

#[test]
fn events_are_answered() {
    let mut node = PeerNode::new(None, vec![]);
    let peer = || PeerAddress {
        peer_id: "12D3KooW".to_string(),
        address: "/ip4/192.168.1.7/tcp/4001".to_string(),
    };
    let r = node.handle_swarm_event(NetworkEvent::NewListenAddr {
        address: "/ip4/127.0.0.1/tcp/4001".to_string(),
    });
    assert!(!r.emit_stats);
    assert!(matches!(r.peers, PeerChange::Unchanged));
    let r = node.handle_swarm_event(NetworkEvent::Other);
    assert!(!r.emit_stats);
    assert!(r.outcome.is_none());
    let r = node.handle_swarm_event(NetworkEvent::MdnsDiscovered {
        peers: vec![peer(), peer()],
    });
    assert!(r.emit_stats);
    assert!(matches!(r.peers, PeerChange::Add(list) if list.len() == 2 && list[0].peer_id == "12D3KooW"));
    let r = node.handle_swarm_event(NetworkEvent::MdnsExpired { peers: vec![peer()] });
    assert!(r.emit_stats);
    assert!(matches!(r.peers, PeerChange::Remove(list) if list.len() == 1));
    let r = node.handle_swarm_event(NetworkEvent::ConnectionEstablished);
    assert!(r.emit_stats && matches!(r.peers, PeerChange::Unchanged));
    let r = node.handle_swarm_event(NetworkEvent::ConnectionClosed);
    assert!(r.emit_stats && matches!(r.peers, PeerChange::Unchanged));
    assert!(r.outcome.is_none());
    assert_eq!(node.total_manifestations(), 0);
    assert_eq!(node.bandwidth_in(), 0);
}

#[test]
fn node_moves_through_its_phases() {
    let mut node = PeerNode::new(None, vec![]);
    assert_eq!(node.phase(), NodePhase::Initialized);
    node.note_listening();
    assert_eq!(node.phase(), NodePhase::Listening);
    let dial = node.begin_run();
    assert_eq!(node.phase(), NodePhase::Running);
    assert_eq!(dial, PeerNode::default_bootstrap_peers());
    assert_eq!(dial.len(), 3);
    assert_eq!(
        dial[0],
        "/ip4/104.131.131.82/tcp/4001/p2p/QmaCpDMGvV2BGHeYERUEnRQAwe3N8SzbUtfsmvsqQLuvuJ"
    );
    node.note_listening();
    assert_eq!(node.phase(), NodePhase::Running);
    let _ = node.handle_command(Some(Command::Shutdown));
    assert_eq!(node.phase(), NodePhase::Stopped);
    node.note_listening();
    let _ = node.begin_run();
    assert_eq!(node.phase(), NodePhase::Stopped);

    let own = vec!["/ip4/10.0.0.1/tcp/4001".to_string()];
    let mut node = PeerNode::new(None, own.clone());
    assert_eq!(node.begin_run(), own);
}

#[test]
fn seen_cache_forgets_the_least_recently_seen() {
    assert_eq!(SEEN_CAPACITY, 10_000);
    let key = |i: u32| i.to_be_bytes().to_vec();
    let mut cache = SeenCache::new();
    assert!(!cache.contains(&key(0)));
    for i in 0..10_000u32 {
        cache.insert(key(i));
    }
    assert!(cache.contains(&key(0)));
    assert!(cache.contains(&key(9_999)));
    // Looking an id up does not refresh it; putting it in again does.
    cache.insert(key(1));
    cache.insert(key(10_000));
    assert!(!cache.contains(&key(0)));
    assert!(cache.contains(&key(1)));
    assert!(cache.contains(&key(2)));
    cache.insert(key(10_001));
    assert!(!cache.contains(&key(2)));
    assert!(cache.contains(&key(1)));
    assert!(cache.contains(&key(3)));
    assert!(cache.contains(&key(10_000)));
    assert!(cache.contains(&key(10_001)));
}

#[test]
fn reaction_to_a_message_holds_what_became_of_it() {
    let identity = UserIdentity::generate();
    let mut node = PeerNode::new(None, vec![]);

    let garbage = InboundMessage {
        size: 9,
        decoded: None,
    };
    let r = node.handle_swarm_event(NetworkEvent::Message {
        id: b"one".to_vec(),
        message: garbage,
    });
    assert!(matches!(r.outcome, Some(InboundOutcome::Unparseable)));
    assert!(!r.emit_stats);

    let mut forged = signed(&identity, payload_of(75.0, &[]));
    forged.payload.score = 76.0f64.to_bits();
    let (id, message) = message_of(&forged);
    let r = node.handle_swarm_event(NetworkEvent::Message { id, message });
    assert!(matches!(r.outcome, Some(InboundOutcome::InvalidSignature)));
    assert!(!r.emit_stats);

    let invalid = signed(&identity, payload_of(75.0, &[("http://me", 5.0)]));
    let (id, message) = message_of(&invalid);
    let r = node.handle_swarm_event(NetworkEvent::Message { id, message });
    match r.outcome {
        Some(InboundOutcome::Invalid(e)) => assert!(e.message().contains("PII")),
        other => panic!("{:?}", other),
    }
    assert!(!r.emit_stats);

    let mut late = payload_of(1.0, &[]);
    late.timestamp = u64::MAX;
    let (id, message) = message_of(&signed(&identity, late));
    let outcome = node.handle_gossip_message(id.clone(), &message);
    assert!(matches!(
        outcome,
        InboundOutcome::Invalid(ValidationError::TimestampInFuture { .. })
    ));
    let outcome = node.handle_gossip_message(id, &message);
    assert!(matches!(outcome, InboundOutcome::Duplicate));
    assert_eq!(node.total_manifestations(), 0);
}
