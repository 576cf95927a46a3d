use gossip::buffer::Buffer;
use gossip::error::{CodecError, GossipError};
use gossip::message::GossipMessage;
use gossip::node::{Address, Node, NodeStatus};
use gossip::protocol::{Datagram, DropReason, GossipProtocol, Outcome};
use gossip::GossipConfig;

const T0: u64 = 1_000_000;

fn addr(d: u8) -> Address {
    Address::new(10, 0, 0, d, 42069)
}

fn peer(id: u32, last_heartbeat: u64) -> Node {
    Node { id, addr: addr(id as u8), status: NodeStatus::Online, last_heartbeat }
}

fn config(fanout: usize) -> GossipConfig {
    let mut config = GossipConfig::default();
    config.fanout = fanout;
    config.node_name = "local".to_string();
    config
}

fn local() -> Node {
    Node::new_at(1, addr(1), T0)
}

fn node_with(fanout: usize, peers: Vec<Node>, seed: u64) -> GossipProtocol {
    GossipProtocol::with_seed(config(fanout), local(), peers, seed)
}

fn message(from_id: u32, ttl: u8, msg_type: &str, payload: &[u8]) -> GossipMessage {
    GossipMessage {
        from_id,
        ttl,
        msg_type: msg_type.to_string(),
        payload: Buffer::from_slice(payload).unwrap(),
    }
}

fn wire(msg: &GossipMessage) -> Vec<u8> {
    msg.serialize().unwrap().as_slice().to_vec()
}

fn targets(out: &[Datagram]) -> Vec<u32> {
    let mut ids: Vec<u32> = out.iter().map(|d| d.peer).collect();
    ids.sort();
    ids
}

fn sorted_ids(nodes: &[Node]) -> Vec<u32> {
    let mut ids: Vec<u32> = nodes.iter().map(|n| n.id).collect();
    ids.sort();
    ids
}

#[test]
fn heartbeat_touches_peer() {
    let a = addr(5);
    let mut node = node_with(2, vec![Node { id: 5, addr: a, status: NodeStatus::Online, last_heartbeat: T0 }], 1);
    let datagram = wire(&message(5, 3, "heartbeat", &[]));
    let reaction = node.receive(&datagram, a, T0 + 3_000);
    let known = node.peers().get(5).unwrap();
    assert_eq!(known.last_heartbeat, T0 + 3_000);
    assert_eq!(known.status, NodeStatus::Online);
    assert_eq!(known.addr, a);
    assert_eq!(node.peers().len(), 1);
    assert!(reaction.delivery.is_none());
    assert_eq!(reaction.outcome, Outcome::Forwarded);
    // the only peer is the originator: nobody to pass the message to
    assert!(reaction.outbound.is_empty());
}

#[test]
fn heartbeat_revives_a_peer_marked_offline() {
    let mut node = node_with(
        2,
        vec![Node { id: 5, addr: addr(5), status: NodeStatus::Offline, last_heartbeat: 0 }],
        1,
    );
    let datagram = wire(&message(5, 3, "heartbeat", &[]));
    node.receive(&datagram, addr(5), T0);
    let known = node.peers().get(5).unwrap();
    assert_eq!(known.status, NodeStatus::Online);
    assert_eq!(known.last_heartbeat, T0);
}

#[test]
fn unknown_sender_learned() {
    let mut node = node_with(2, Vec::new(), 1);
    let src = Address::new(10, 0, 0, 2, 42069);
    let datagram = wire(&message(42, 2, "heartbeat", &[]));
    let reaction = node.receive(&datagram, src, T0);
    assert_eq!(node.peers().len(), 1);
    let known = node.peers().get(42).unwrap();
    assert_eq!(known.id, 42);
    assert_eq!(known.addr, src);
    assert_eq!(known.status, NodeStatus::Online);
    assert_eq!(known.last_heartbeat, T0);
    assert_eq!(reaction.outcome, Outcome::Forwarded);
    assert!(reaction.outbound.is_empty());
    assert!(reaction.delivery.is_none());
}

#[test]
fn a_known_sender_keeps_its_address() {
    let mut node = node_with(2, vec![peer(5, T0)], 1);
    let datagram = wire(&message(5, 3, "heartbeat", &[]));
    node.receive(&datagram, addr(99), T0 + 10);
    assert_eq!(node.peers().get(5).unwrap().addr, addr(5));
    assert_eq!(node.peers().get(5).unwrap().last_heartbeat, T0 + 10);
}

#[test]
fn ttl_expiry() {
    let mut node = node_with(2, vec![peer(7, T0), peer(8, T0), peer(9, T0)], 1);
    let datagram = wire(&message(99, 1, "heartbeat", &[]));
    let reaction = node.receive(&datagram, addr(99), T0 + 1);
    assert_eq!(reaction.outcome, Outcome::Expired);
    assert!(reaction.outbound.is_empty());
    // the sender was learned all the same
    assert_eq!(node.peers().len(), 4);
    assert_eq!(node.peers().get(99).unwrap().last_heartbeat, T0 + 1);
}

#[test]
fn a_message_without_hops_left_is_never_forwarded() {
    for seed in 0..20 {
        let mut node = node_with(2, vec![peer(7, T0), peer(8, T0), peer(9, T0)], seed);
        for ttl in [0u8, 1u8] {
            let msg = message(99, ttl, "note", &[1, 2, 3]);
            assert!(node.forward(&msg, T0).is_empty());
            let reaction = node.handle_message(msg, addr(99), T0);
            assert_eq!(reaction.outcome, Outcome::Expired);
            assert!(reaction.outbound.is_empty());
            let datagram = wire(&message(98, ttl, "heartbeat", &[]));
            let reaction = node.receive(&datagram, addr(98), T0);
            assert_eq!(reaction.outcome, Outcome::Expired);
            assert!(reaction.outbound.is_empty());
        }
    }
}

#[test]
fn forwarding_takes_one_hop_off() {
    let mut node = node_with(2, vec![peer(7, T0), peer(8, T0)], 3);
    let msg = message(99, 3, "note", &[4, 5]);
    let out = node.forward(&msg, T0);
    assert_eq!(targets(&out), vec![7, 8]);
    let expected = wire(&message(99, 2, "note", &[4, 5]));
    for datagram in &out {
        assert_eq!(datagram.bytes.as_slice(), expected.as_slice());
        let decoded = GossipMessage::deserialize(datagram.bytes.as_slice()).unwrap();
        assert_eq!(decoded.from_id, 99);
        assert_eq!(decoded.ttl, 2);
    }
    // with two hops left the message goes out with its last
    let out = node.forward(&message(99, 2, "note", &[]), T0);
    assert_eq!(out.len(), 2);
    assert_eq!(GossipMessage::deserialize(out[0].bytes.as_slice()).unwrap().ttl, 1);
}

#[test]
fn loop_suppression() {
    for seed in 0..200 {
        let mut node = node_with(2, vec![peer(99, T0), peer(7, T0), peer(8, T0)], seed);
        let datagram = wire(&message(99, 3, "heartbeat", &[]));
        let reaction = node.receive(&datagram, addr(99), T0 + 5);
        assert_eq!(reaction.outcome, Outcome::Forwarded);
        assert_eq!(targets(&reaction.outbound), vec![7, 8]);
        for datagram in &reaction.outbound {
            assert_ne!(datagram.peer, 99);
            assert_ne!(datagram.addr, addr(99));
        }
    }
}

#[test]
fn loop_suppression_holds_for_the_rescue_probe_too() {
    let mut offline_origin = peer(99, 0);
    offline_origin.status = NodeStatus::Offline;
    for seed in 0..50 {
        let mut node = node_with(2, vec![offline_origin, peer(7, T0), peer(8, T0)], seed);
        let out = node.gossip(&message(99, 3, "note", &[]), Some(99), T0).unwrap();
        assert_eq!(targets(&out), vec![7, 8]);
    }
}

#[test]
fn a_round_never_reaches_the_node_itself() {
    // the node's own identifier got into its table, as a live peer
    for seed in 0..100 {
        let mut node = node_with(3, vec![peer(1, T0), peer(7, T0), peer(8, T0)], seed);
        let out = node.heartbeat(T0);
        assert_eq!(targets(&out), vec![7, 8]);
        let out = node.gossip(&message(5, 3, "note", &[]), Some(8), T0).unwrap();
        assert_eq!(targets(&out), vec![7]);
    }
}

#[test]
fn offline_transition_and_rescue() {
    let timeout = GossipConfig::default().offline_timeout;
    let stale = T0 - timeout - 1;
    for seed in 0..100 {
        let mut node =
            node_with(2, vec![peer(7, T0), peer(8, T0), peer(9, T0), peer(50, stale)], seed);
        node.mark_stale_offline(T0);
        assert_eq!(node.peers().get(50).unwrap().status, NodeStatus::Offline);
        assert_eq!(node.peers().get(7).unwrap().status, NodeStatus::Online);
        let out = node.gossip(&message(1, 3, "heartbeat", &[]), None, T0).unwrap();
        assert_eq!(out.len(), 3);
        // the live share comes first, the rescue probe last
        let live: Vec<u32> = out[..2].iter().map(|d| d.peer).collect();
        assert!(live.iter().all(|id| [7, 8, 9].contains(id)));
        assert_ne!(live[0], live[1]);
        assert_eq!(out[2].peer, 50);
        assert_eq!(out[2].addr, addr(50));
        assert_eq!(out.iter().filter(|d| d.peer == 50).count(), 1);
    }
}

#[test]
fn a_silent_peer_is_probed_without_a_sweep() {
    let timeout = GossipConfig::default().offline_timeout;
    let mut node = node_with(1, vec![peer(7, T0), peer(50, T0 - timeout - 1)], 9);
    let out = node.heartbeat(T0);
    assert_eq!(out.len(), 2);
    assert_eq!(out[0].peer, 7);
    assert_eq!(out[1].peer, 50);
    // exactly at the timeout the peer is still live
    let mut node = node_with(5, vec![peer(7, T0), peer(50, T0 - timeout)], 9);
    assert_eq!(targets(&node.heartbeat(T0)), vec![7, 50]);
    let chosen = node.select_peers(None, T0);
    assert_eq!(sorted_ids(&chosen), vec![7, 50]);
}

#[test]
fn exactly_fanout_live_destinations() {
    let peers: Vec<Node> = (10..30).map(|id| peer(id, T0)).collect();
    for fanout in 0..=20 {
        for seed in 0..10 {
            let mut node = node_with(fanout, peers.clone(), seed);
            let out = node.heartbeat(T0 + 1);
            assert_eq!(out.len(), fanout);
            let ids = targets(&out);
            let mut unique = ids.clone();
            unique.dedup();
            assert_eq!(unique.len(), fanout);
            assert!(ids.iter().all(|id| (10..30).contains(id)));
        }
    }
}

#[test]
fn fewer_live_peers_than_fanout_are_all_reached() {
    let mut node = node_with(4, vec![peer(7, T0), peer(8, T0)], 5);
    assert_eq!(targets(&node.heartbeat(T0)), vec![7, 8]);
    let mut node = node_with(4, Vec::new(), 5);
    assert!(node.heartbeat(T0).is_empty());
    assert!(node.gossip_addresses(None, T0).is_empty());
}

#[test]
fn at_most_one_rescue_probe() {
    let mut peers: Vec<Node> = (10..20).map(|id| peer(id, T0)).collect();
    for id in 40..45 {
        let mut gone = peer(id, T0);
        gone.status = NodeStatus::Offline;
        peers.push(gone);
    }
    for seed in 0..50 {
        let mut node = node_with(4, peers.clone(), seed);
        let out = node.heartbeat(T0);
        assert_eq!(out.len(), 5);
        assert!(out[..4].iter().all(|d| (10..20).contains(&d.peer)));
        assert!((40..45).contains(&out[4].peer));
    }
}

#[test]
fn datagrams_go_to_the_address_on_record() {
    let mut node = node_with(3, vec![peer(7, T0), peer(8, T0), peer(9, T0)], 2);
    let msg = message(1, 3, "note", &[1]);
    let out = node.gossip(&msg, None, T0).unwrap();
    assert_eq!(out.len(), 3);
    for datagram in &out {
        assert_eq!(datagram.addr, node.peers().get(datagram.peer).unwrap().addr);
        assert_eq!(datagram.bytes.as_slice(), wire(&msg).as_slice());
    }
    let addresses = node.gossip_addresses(None, T0);
    let mut octets: Vec<u8> = addresses.iter().map(|a| a.ip.d).collect();
    octets.sort();
    assert_eq!(octets, vec![7, 8, 9]);
    assert!(addresses.iter().all(|a| a.port == 42069));
}

#[test]
fn heartbeat_round_carries_the_configured_ttl() {
    let mut settings = config(2);
    settings.message_ttl = 6;
    let mut node = GossipProtocol::with_seed(settings, local(), vec![peer(7, T0)], 3);
    let out = node.heartbeat(T0);
    assert_eq!(out.len(), 1);
    let sent = GossipMessage::deserialize(out[0].bytes.as_slice()).unwrap();
    assert_eq!(sent, message(1, 6, "heartbeat", &[]));
    // a round changes nothing in the table
    assert_eq!(node.peers().len(), 1);
    assert_eq!(node.peers().get(7).unwrap().last_heartbeat, T0);
}

#[test]
fn application_messages_are_delivered_and_forwarded() {
    let mut node = node_with(2, vec![peer(7, T0), peer(8, T0)], 4);
    let msg = message(42, 3, "chat", &[104, 105]);
    let reaction = node.receive(&wire(&msg), addr(42), T0 + 7);
    assert_eq!(reaction.outcome, Outcome::Forwarded);
    assert_eq!(reaction.delivery, Some(msg));
    assert_eq!(targets(&reaction.outbound), vec![7, 8]);
    // learned, with the time of arrival
    assert_eq!(node.peers().get(42).unwrap().last_heartbeat, T0 + 7);
}

#[test]
fn application_messages_do_not_refresh_a_known_sender() {
    let mut node = node_with(2, vec![peer(42, T0)], 4);
    let msg = message(42, 1, "chat", &[]);
    let reaction = node.receive(&wire(&msg), addr(42), T0 + 500);
    assert_eq!(reaction.delivery, Some(msg));
    assert_eq!(reaction.outcome, Outcome::Expired);
    assert_eq!(node.peers().get(42).unwrap().last_heartbeat, T0);
}

#[test]
fn empty_datagram_is_dropped() {
    let mut node = node_with(2, vec![peer(7, T0)], 4);
    let reaction = node.receive(&[], addr(9), T0);
    assert_eq!(reaction.outcome, Outcome::Dropped(DropReason::Empty));
    assert!(reaction.outbound.is_empty());
    assert!(reaction.delivery.is_none());
    assert_eq!(node.peers().len(), 1);
}

#[test]
fn oversized_datagram_is_dropped() {
    let mut node = node_with(2, vec![peer(7, T0)], 4);
    let mut datagram = wire(&message(9, 3, "heartbeat", &[]));
    datagram.resize(1025, 0);
    let reaction = node.receive(&datagram, addr(9), T0);
    assert_eq!(reaction.outcome, Outcome::Dropped(DropReason::Oversize));
    assert!(reaction.outbound.is_empty());
    assert_eq!(node.peers().len(), 1);
    // 1024 bytes are still taken
    datagram.truncate(1024);
    let reaction = node.receive(&datagram, addr(9), T0);
    assert_eq!(reaction.outcome, Outcome::Forwarded);
    assert_eq!(node.peers().len(), 2);
}

#[test]
fn malformed_datagram_is_dropped() {
    let mut node = node_with(2, vec![peer(7, T0)], 4);
    let reaction = node.receive(&[1, 2, 3], addr(9), T0);
    assert_eq!(reaction.outcome, Outcome::Dropped(DropReason::Malformed(CodecError::Truncated)));
    let reaction = node.receive(&[1, 0, 0, 0, 3, 1, 0, 0xFF, 0, 0], addr(9), T0);
    assert_eq!(reaction.outcome, Outcome::Dropped(DropReason::Malformed(CodecError::InvalidText)));
    let reaction = node.receive(&[1, 0, 0, 0, 3, 0, 0, 0xFF, 0xFF], addr(9), T0);
    assert_eq!(
        reaction.outcome,
        Outcome::Dropped(DropReason::Malformed(CodecError::PayloadOverrun))
    );
    assert!(reaction.outbound.is_empty());
    assert!(reaction.delivery.is_none());
    assert_eq!(node.peers().len(), 1);
    assert!(node.peers().get(1).is_none());
}

#[test]
fn a_message_too_large_to_encode_fails_the_round() {
    let mut node = node_with(2, vec![peer(7, T0)], 4);
    let msg = message(1, 3, "big", &[0u8; 1020]);
    assert_eq!(
        node.gossip(&msg, None, T0).map(|out| out.len()),
        Err(GossipError::Serialization(CodecError::BufferFull))
    );
    // forwarding swallows the failure
    assert!(node.forward(&msg, T0).is_empty());
    // without a destination nothing is encoded and the round succeeds
    let mut alone = node_with(2, Vec::new(), 4);
    assert_eq!(alone.gossip(&msg, None, T0).map(|out| out.len()), Ok(0));
}

#[test]
fn handling_a_message_too_large_to_pass_on() {
    let mut node = node_with(2, vec![peer(7, T0)], 4);
    let msg = message(42, 3, "big", &[0u8; 1020]);
    let reaction = node.handle_message(msg, addr(42), T0);
    assert_eq!(reaction.outcome, Outcome::Forwarded);
    assert!(reaction.outbound.is_empty());
    assert_eq!(reaction.delivery.map(|m| m.payload.len()), Some(1020));
    assert_eq!(node.peers().len(), 2);
}

#[test]
fn seeds_are_installed_on_construction() {
    let node = GossipProtocol::new(config(2), local(), vec![peer(7, 5), peer(8, 6), peer(7, 9)]);
    assert_eq!(node.peers().len(), 2);
    assert_eq!(node.peers().get(7).unwrap().last_heartbeat, 9);
    assert_eq!(node.local_node().id, 1);
    assert_eq!(node.config().fanout, 2);
}

#[test]
fn a_node_seeded_by_the_system_gossips() {
    let peers: Vec<Node> = (10..20).map(|id| peer(id, T0)).collect();
    let mut node = GossipProtocol::new(config(4), local(), peers);
    for _ in 0..20 {
        let out = node.heartbeat(T0);
        assert_eq!(out.len(), 4);
        let mut ids = targets(&out);
        ids.dedup();
        assert_eq!(ids.len(), 4);
    }
}

#[test]
fn sampling_is_uniform() {
    let peers: Vec<Node> = (100..110).map(|id| peer(id, T0)).collect();
    let mut node = node_with(4, peers, 2024);
    let rounds = 20_000;
    let mut hits = [0u32; 10];
    for _ in 0..rounds {
        let chosen = node.select_peers(None, T0);
        assert_eq!(chosen.len(), 4);
        for picked in chosen {
            hits[(picked.id - 100) as usize] += 1;
        }
    }
    // each peer is expected in 4 of 10 rounds
    for count in hits {
        let frequency = count as f64 / rounds as f64;
        assert!((frequency - 0.4).abs() < 0.02, "frequency {}", frequency);
    }
}

#[test]
fn membership_spreads_between_two_nodes() {
    // an in-memory harness: datagrams planned by one node are handed to the other
    let a_record = Node::new_at(1, addr(1), T0);
    let b_record = Node::new_at(2, addr(2), T0);
    let mut a = GossipProtocol::with_seed(config(2), a_record, vec![b_record], 1);
    let mut b = GossipProtocol::with_seed(config(2), b_record, Vec::new(), 2);
    let out = a.heartbeat(T0 + 100);
    assert_eq!(targets(&out), vec![2]);
    assert_eq!(out[0].addr, addr(2));
    let reaction = b.receive(out[0].bytes.as_slice(), addr(1), T0 + 101);
    assert_eq!(reaction.outcome, Outcome::Forwarded);
    // b knows a now, and does not send a's heartbeat back to a
    assert_eq!(b.peers().get(1).unwrap().addr, addr(1));
    assert!(reaction.outbound.is_empty());
    // b's own heartbeat reaches a and refreshes b's record there
    let out = b.heartbeat(T0 + 200);
    assert_eq!(targets(&out), vec![1]);
    a.receive(out[0].bytes.as_slice(), addr(2), T0 + 201);
    assert_eq!(a.peers().get(2).unwrap().last_heartbeat, T0 + 201);
}
