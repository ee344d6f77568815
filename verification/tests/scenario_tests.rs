use txnode::codec::decode;
use txnode::discovery::DiscoveryService;
use txnode::gossip::content_id;
use txnode::node::{transaction_key, Node, NodeAction, NodeEvent};

const TOPIC: &str = "transaction";

fn start_node(name: &str) -> Node {
    Node::new(String::from(name), String::from(TOPIC)).unwrap()
}

fn published_data(actions: &[NodeAction]) -> Vec<u8> {
    assert_eq!(actions.len(), 1);
    match &actions[0] {
        NodeAction::Publish { topic, data } => {
            assert_eq!(topic, TOPIC);
            data.clone()
        },
        _ => panic!("expected a publish action"),
    }
}

fn deliver(node: &mut Node, origin: &str, data: Vec<u8>, now: u64) -> Vec<NodeAction> {
    node.handle_event(
        NodeEvent::MessageReceived {
            origin_peer: String::from(origin),
            topic: String::from(TOPIC),
            data,
        },
        now,
    )
}

#[test]
fn node_rejects_empty_topic_at_startup() {
    assert!(Node::new(String::from("node-1"), String::new()).is_err());
}

#[test]
fn two_nodes_exchange_one_transaction() {
    // Two nodes start and discover each other locally.
    let mut node1 = start_node("node-1");
    let mut node2 = start_node("node-2");
    let join1 = node2.handle_event(
        NodeEvent::PeerJoined { peer_id: String::from("node-1") },
        10,
    );
    assert!(matches!(&join1[..], [NodeAction::AddPeer { peer_id }] if peer_id == "node-1"));
    node1.handle_event(NodeEvent::PeerJoined { peer_id: String::from("node-2") }, 10);

    // Node 1's operator types a line: one transaction is published.
    let actions = node1.handle_event(NodeEvent::InputLine, 42);
    let data = published_data(&actions);

    // Node 2 receives exactly one delivery with a decodable record whose
    // sender is node 1's identity.
    let delivery_actions = deliver(&mut node2, "node-1", data.clone(), 43);
    assert_eq!(delivery_actions.len(), 2);
    let record = decode(&data).unwrap();
    assert_eq!(record.sender, "node-1");
    assert_eq!(record.timestamp, 42);
    assert_eq!(record.payload, vec![0, 1, 2, 3]);
    assert!(record.signature.starts_with("signature-"));

    // The first replication carries the encoded bytes under the content key.
    let id = content_id(&data);
    let key = transaction_key(id);
    assert_eq!(
        String::from_utf8(key.clone()).unwrap(),
        format!("transaction:{id}")
    );
    match &delivery_actions[0] {
        NodeAction::Replicate { record, quorum } => {
            assert_eq!(*quorum, 1);
            assert_eq!(record.key, key);
            assert_eq!(record.value, data);
            assert_eq!(record.publisher, "node-1");
            assert!(record.expiry.is_none());
        },
        _ => panic!("expected a replicate action"),
    }
    match &delivery_actions[1] {
        NodeAction::Replicate { record, quorum } => {
            assert_eq!(*quorum, 1);
            assert_eq!(record.key, b"peer:node-1".to_vec());
            assert_eq!(record.value, b"node-1".to_vec());
        },
        _ => panic!("expected a replicate action"),
    }

    // Node 2's store answers the content key with the published bytes.
    assert_eq!(node2.get(&key), Some(data.clone()));

    // A relay of the same bytes through another peer is not delivered again.
    let dup_actions = deliver(&mut node2, "node-3", data, 44);
    assert!(dup_actions.is_empty());
}

#[test]
fn departed_peer_is_removed_from_mesh() {
    // Node 2 goes offline: it stops announcing, and after the expiry window
    // node 1 drops it as an explicit gossip peer.
    let mut node1 = start_node("node-1");
    let mut discovery = DiscoveryService::new(30);
    discovery.observe(String::from("node-2"), 100);
    node1.handle_event(NodeEvent::PeerJoined { peer_id: String::from("node-2") }, 100);

    assert!(discovery.sweep(120).is_empty());
    let departed = discovery.sweep(130);
    assert_eq!(departed, vec![String::from("node-2")]);

    let mut removals = Vec::new();
    for peer_id in departed {
        removals.extend(node1.handle_event(NodeEvent::PeerLeft { peer_id }, 130));
    }
    assert!(matches!(&removals[..], [NodeAction::RemovePeer { peer_id }] if peer_id == "node-2"));
}

#[test]
fn publish_without_peers_reaches_no_other_store() {
    // Publishing with zero connected peers still yields framed bytes (hence
    // a content identifier), but a later-joining node has nothing under the
    // content key: no replication happened.
    let mut lonely = start_node("node-1");
    let actions = lonely.handle_event(NodeEvent::InputLine, 7);
    let data = published_data(&actions);
    let id = content_id(&data);

    let latecomer = start_node("node-3");
    assert_eq!(latecomer.get(&transaction_key(id)), None);
}

#[test]
fn undecodable_frame_is_dropped() {
    let mut node = start_node("node-1");
    let garbage = vec![1u8, 2, 3];
    let actions = deliver(&mut node, "node-2", garbage.clone(), 5);
    assert!(actions.is_empty());
    // The malformed frame still counts as seen: it is not retried.
    let again = deliver(&mut node, "node-4", garbage, 6);
    assert!(again.is_empty());
}

#[test]
fn informational_events_change_nothing() {
    let mut node = start_node("node-1");
    let now = 1;
    assert!(node
        .handle_event(NodeEvent::RoutingUpdated { peer_id: String::from("p") }, now)
        .is_empty());
    assert!(node.handle_event(NodeEvent::OutboundQueryProgressed, now).is_empty());
    assert!(node
        .handle_event(NodeEvent::NewListenAddr { address: String::from("addr") }, now)
        .is_empty());
    assert!(node.handle_event(NodeEvent::Unknown, now).is_empty());
}

#[test]
fn each_input_line_publishes_fresh_bytes() {
    let mut node = start_node("node-1");
    let first = published_data(&node.handle_event(NodeEvent::InputLine, 50));
    let second = published_data(&node.handle_event(NodeEvent::InputLine, 51));
    // Timestamps differ, so the encodings differ.
    assert_ne!(first, second);
    let r1 = decode(&first).unwrap();
    let r2 = decode(&second).unwrap();
    assert_eq!(r1.timestamp, 50);
    assert_eq!(r2.timestamp, 51);
    assert_eq!(r1.sender, r2.sender);
}
