use ccze_rs::gossip::{
    GossipConfig, GossipManager, GossipMessage, GossipMessageType, GossipNode, GossipPayload,
    StateVector, ThreatSeverity, ThreatSignature,
};
use ccze_rs::xdp::SocketAddress;

fn local(port: u16) -> SocketAddress {
    SocketAddress::V4 { ip: 0x7f00_0001, port }
}

fn message(t: GossipMessageType, from: &str, at: u64) -> GossipMessage {
    GossipMessage::sent_at(t, from, at)
}

#[test]
fn test_gossip_node_creation() {
    let node = GossipNode::new("node1".to_string(), local(54321), "1.0.0");

    assert_eq!(node.node_id, "node1");
    assert_eq!(node.version, "1.0.0");
    assert!(node.is_alive(60)); // Within timeout
}

#[test]
fn test_state_vector_creation() {
    let data: Vec<u64> = vec![0.1f64, 0.2, 0.3, 0.4].into_iter().map(f64::to_bits).collect();
    let vector = StateVector::new(data, "node1", 0.5f64.to_bits(), 0.8f64.to_bits());

    assert_eq!(vector.source_node, "node1");
    assert_eq!(f64::from_bits(vector.severity_bits), 0.5);
    assert_eq!(f64::from_bits(vector.entropy_bits), 0.8);
    assert_eq!(vector.data_bits.len(), 4);
}

#[test]
fn test_gossip_config_default() {
    let config = GossipConfig::default();

    assert_eq!(config.node_id, "ccze_node_1");
    assert_eq!(config.port, 54321);
    assert_eq!(config.heartbeat_interval, 30);
    assert_eq!(config.gossip_interval, 60);
}

#[test]
fn gossip_node_liveness_window() {
    let node = GossipNode::seen_at("n".to_string(), local(1), "v", 1000);
    assert!(node.is_alive_at(1000, 0));
    assert!(node.is_alive_at(1060, 60));
    assert!(!node.is_alive_at(1061, 60));
    assert!(!node.is_alive_at(999, 60));
    assert_eq!(node.capabilities, vec!["xdp", "cgroup", "zram"]);
}

#[test]
fn state_vector_identifier_and_hash() {
    let v = StateVector::made_at(vec![7, 9], "node1", 0.5f64.to_bits(), 0.8f64.to_bits(), 1000);
    assert_eq!(v.vector_id, "vec_node1_1000");
    assert_eq!(v.get_hash(), "0009999999999a72");
    let w = StateVector::made_at(vec![], "node1", 0.5f64.to_bits(), 0.8f64.to_bits(), 1000);
    assert_eq!(w.get_hash(), v.get_hash());
}

#[test]
fn gossip_manager_records_senders_and_payloads() {
    let mut m = GossipManager::new(GossipConfig::default());
    m.register_self_at(500);
    assert_eq!(m.get_nodes_at(600).len(), 1);

    m.handle_message_at(&message(GossipMessageType::Heartbeat, "peer", 900), local(7000), GossipPayload::Undecoded, 1000);
    let nodes = m.get_nodes_at(1000);
    assert_eq!(nodes.len(), 2);
    assert_eq!(nodes[1].node_id, "peer");
    assert_eq!(nodes[1].version, "unknown");
    assert_eq!(nodes[1].last_seen, 1000);

    m.handle_message_at(&message(GossipMessageType::Heartbeat, "peer", 1100), local(7000), GossipPayload::Undecoded, 1200);
    let nodes = m.get_nodes_at(1200);
    assert_eq!(nodes.len(), 2);
    assert_eq!(nodes[1].last_seen, 1200);

    let v = StateVector::made_at(vec![1], "peer", 0, 0, 1150);
    m.handle_message_at(&message(GossipMessageType::StateVector, "peer", 1150), local(7000), GossipPayload::Vector(v), 1210);
    assert_eq!(m.get_state_vectors().len(), 1);

    let sig = ThreatSignature::issued_at("xdp_attack", ThreatSeverity::Critical, vec![1, 2], 1200);
    m.handle_message_at(&message(GossipMessageType::ThreatAlert, "peer", 1200), local(7000), GossipPayload::Signature(sig), 1220);
    assert_eq!(m.get_threat_signatures_at(1300).len(), 1);
    assert_eq!(m.get_threat_signatures_by_type_at("xdp_attack", 1300).len(), 1);
    assert_eq!(m.get_threat_signatures_by_type_at("other", 1300).len(), 0);
    assert_eq!(m.get_threat_signatures_at(4801).len(), 0);

    let stats = m.get_stats_at(1300);
    assert_eq!(stats.node_id, "ccze_node_1");
    assert_eq!(stats.total_nodes, 2);
    assert_eq!(stats.total_state_vectors, 1);
    assert_eq!(stats.total_threat_signatures, 1);
    assert_eq!(stats.critical_threat_signatures, 1);
    assert!(!stats.running);

    // A payload that does not match the message type is ignored.
    let stray = StateVector::made_at(vec![], "peer", 0, 0, 1);
    m.handle_message_at(&message(GossipMessageType::ThreatAlert, "peer", 1300), local(7000), GossipPayload::Vector(stray), 1300);
    assert_eq!(m.get_state_vectors().len(), 1);

    m.handle_message_at(&message(GossipMessageType::NodeLeave, "peer", 1400), local(7000), GossipPayload::Undecoded, 1400);
    assert_eq!(m.get_stats_at(1400).total_nodes, 1);
}

#[test]
fn gossip_manager_join_and_state_response() {
    let mut m = GossipManager::new(GossipConfig::default());
    let joined = GossipNode::seen_at("far".to_string(), local(9000), "2.0", 50);
    m.handle_message_at(&message(GossipMessageType::NodeJoin, "near", 100), local(8000), GossipPayload::Node(joined), 100);
    assert_eq!(m.get_stats_at(100).total_nodes, 2);
    assert_eq!(m.broadcast_peers(), vec![local(8000), local(9000)]);

    let vs: Vec<StateVector> = (0..7u64)
        .map(|i| StateVector::made_at(vec![i], "far", 0, 0, i))
        .collect();
    m.handle_message_at(&message(GossipMessageType::StateResponse, "far", 120), local(9000), GossipPayload::Vectors(vs), 120);
    assert_eq!(m.get_state_vectors().len(), 7);
    let first = m.vectors_to_broadcast();
    assert_eq!(first.len(), 5);
    assert_eq!(first[0].vector_id, "vec_far_0");
    assert_eq!(first[4].vector_id, "vec_far_4");

    // Re-sending a vector replaces it in place.
    let again = StateVector::made_at(vec![42], "far", 0, 0, 2);
    m.handle_message_at(&message(GossipMessageType::StateVector, "far", 130), local(9000), GossipPayload::Vector(again), 130);
    let all = m.get_state_vectors();
    assert_eq!(all.len(), 7);
    assert_eq!(all[2].data_bits, vec![42]);
}

#[test]
fn gossip_manager_stamps_and_shares() {
    let mut m = GossipManager::new(GossipConfig::default());
    let first = m.next_message(GossipMessageType::Heartbeat);
    let second = m.next_message(GossipMessageType::Heartbeat);
    assert_eq!(first.sequence_number, 0);
    assert_eq!(second.sequence_number, 1);
    assert_eq!(second.node_id, "ccze_node_1");
    assert_eq!(m.sequence_number(), 2);

    let sig = ThreatSignature::issued_at("scan", ThreatSeverity::Low, vec![], 10);
    assert!(m.share_threat_signature(sig, false).is_none());
    assert_eq!(m.sequence_number(), 2);
    let v = StateVector::made_at(vec![], "me", 0, 0, 10);
    let sent = m.share_state_vector(v, true).unwrap();
    assert_eq!(sent.message_type, GossipMessageType::StateVector);
    assert_eq!(sent.sequence_number, 2);
    assert_eq!(m.get_stats_at(20).total_threat_signatures, 1);
    assert_eq!(m.get_stats_at(20).critical_threat_signatures, 0);
    m.set_running(true);
    assert!(m.get_stats_at(20).running);
}

#[test]
fn gossip_liveness_uses_configured_timeout() {
    let mut m = GossipManager::new(GossipConfig::default());
    m.handle_message_at(&message(GossipMessageType::Heartbeat, "old", 0), local(1), GossipPayload::Undecoded, 100);
    m.handle_message_at(&message(GossipMessageType::Heartbeat, "new", 0), local(2), GossipPayload::Undecoded, 900);
    // Peers are held to `now - timeout` seconds: at 1000 that is 880, which
    // the peer seen at 100 exceeds.
    let alive = m.get_nodes_at(1000);
    assert_eq!(alive.len(), 1);
    assert_eq!(alive[0].node_id, "new");
    assert_eq!(m.get_stats_at(1000).active_nodes, 1);
    assert_eq!(m.get_nodes_at(100_000).len(), 1);
    // Before the timeout has passed since the epoch the window is zero.
    assert_eq!(m.get_nodes_at(100).len(), 1);
}
