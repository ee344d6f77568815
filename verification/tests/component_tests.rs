use txnode::discovery::DiscoveryService;
use txnode::gossip::{content_id, GossipOverlay, PublishError, MAX_MESSAGE_SIZE};
use txnode::store::{DistributedStore, StoreError, StoredRecord};
use txnode::text::u64_to_decimal;

fn record(key: &[u8], value: &[u8]) -> StoredRecord {
    StoredRecord {
        key: key.to_vec(),
        value: value.to_vec(),
        publisher: String::from("p"),
        expiry: None,
    }
}

#[test]
fn decimal_rendering() {
    assert_eq!(u64_to_decimal(0), "0");
    assert_eq!(u64_to_decimal(7), "7");
    assert_eq!(u64_to_decimal(12345), "12345");
    assert_eq!(u64_to_decimal(u64::MAX), "18446744073709551615");
}

#[test]
fn signature_token_spells_nonce() {
    assert_eq!(txnode::node::signature_token(7), "signature-7");
    assert_eq!(txnode::node::signature_token(0), "signature-0");
}

#[test]
fn content_id_is_deterministic() {
    let p1 = vec![0u8, 1, 2, 3];
    let p2 = vec![0u8, 1, 2, 3];
    assert_eq!(content_id(&p1), content_id(&p2));
    assert_eq!(content_id(&p1), content_id(&p1));
}

#[test]
fn content_id_separates_distinct_payloads() {
    let p1 = vec![0u8, 1, 2, 3];
    let p2 = vec![3u8, 2, 1, 0];
    assert_ne!(content_id(&p1), content_id(&p2));
}

#[test]
fn overlay_delivers_each_content_once() {
    let mut overlay = GossipOverlay::new();
    overlay.subscribe(String::from("transaction")).unwrap();
    let data = vec![1u8, 2, 3];
    let first = overlay.receive("peer-a", "transaction", data.clone());
    let second = overlay.receive("peer-b", "transaction", data.clone());
    let delivered = first.expect("first relay must be delivered");
    assert_eq!(delivered.content, data);
    assert_eq!(delivered.content_id, content_id(&data));
    assert_eq!(delivered.origin_peer, "peer-a");
    assert!(second.is_none(), "duplicate relay must be dropped");
}

#[test]
fn overlay_ignores_unsubscribed_topic() {
    let mut overlay = GossipOverlay::new();
    overlay.subscribe(String::from("transaction")).unwrap();
    assert!(overlay.receive("peer-a", "other", vec![1]).is_none());
}

#[test]
fn overlay_rejects_empty_topic() {
    let mut overlay = GossipOverlay::new();
    assert!(overlay.subscribe(String::new()).is_err());
    assert_eq!(overlay.subscribe(String::from("t")), Ok(true));
    assert_eq!(overlay.subscribe(String::from("t")), Ok(false));
}

#[test]
fn publish_returns_id_with_zero_peers() {
    let mut overlay = GossipOverlay::new();
    overlay.subscribe(String::from("transaction")).unwrap();
    let data = vec![5u8, 6];
    let id = overlay.publish(&data).unwrap();
    assert_eq!(id, content_id(&data));
}

#[test]
fn publish_rejects_oversized_payload() {
    let mut overlay = GossipOverlay::new();
    let data = vec![0u8; MAX_MESSAGE_SIZE + 1];
    assert_eq!(overlay.publish(&data), Err(PublishError::MessageTooLarge));
}

#[test]
fn published_content_is_not_redelivered() {
    let mut overlay = GossipOverlay::new();
    overlay.subscribe(String::from("transaction")).unwrap();
    let data = vec![9u8];
    overlay.publish(&data).unwrap();
    assert!(overlay.receive("peer-a", "transaction", data).is_none());
}

#[test]
fn explicit_peers_add_and_remove() {
    let mut overlay = GossipOverlay::new();
    assert!(overlay.add_explicit_peer(String::from("p1")));
    assert!(!overlay.add_explicit_peer(String::from("p1")));
    assert!(overlay.remove_explicit_peer("p1"));
    assert!(!overlay.remove_explicit_peer("p1"));
}

#[test]
fn store_put_then_get_at_quorum_one() {
    let mut store = DistributedStore::new();
    store.note_peer(String::from("p1"));
    let result = store.put(record(b"transaction:1", b"value"), 1);
    assert_eq!(result, Ok(()));
    assert_eq!(store.get(b"transaction:1"), Some(b"value".to_vec()));
}

#[test]
fn store_reports_no_peers_but_keeps_local_copy() {
    let mut store = DistributedStore::new();
    let result = store.put(record(b"k", b"v"), 1);
    assert_eq!(result, Err(StoreError::NoPeers));
    assert_eq!(store.get(b"k"), Some(b"v".to_vec()));
}

#[test]
fn store_reports_quorum_not_met() {
    let mut store = DistributedStore::new();
    store.note_peer(String::from("p1"));
    let result = store.put(record(b"k", b"v"), 2);
    assert_eq!(result, Err(StoreError::QuorumNotMet));
}

#[test]
fn store_get_missing_key() {
    let store = DistributedStore::new();
    assert_eq!(store.get(b"absent"), None);
}

#[test]
fn store_last_write_wins() {
    let mut store = DistributedStore::new();
    store.note_peer(String::from("p1"));
    store.put(record(b"k", b"first"), 1).unwrap();
    store.put(record(b"k", b"second"), 1).unwrap();
    assert_eq!(store.get(b"k"), Some(b"second".to_vec()));
}

#[test]
fn store_notes_each_peer_once() {
    let mut store = DistributedStore::new();
    assert!(store.note_peer(String::from("p1")));
    assert!(!store.note_peer(String::from("p1")));
}

#[test]
fn discovery_reports_departure_after_window_not_before() {
    let mut discovery = DiscoveryService::new(30);
    assert!(discovery.observe(String::from("node-2"), 100));
    assert!(discovery.sweep(100).is_empty());
    assert!(discovery.sweep(129).is_empty(), "not before the window ends");
    let departed = discovery.sweep(130);
    assert_eq!(departed, vec![String::from("node-2")]);
    // Once evicted, the peer is newly joined when it announces again.
    assert!(discovery.observe(String::from("node-2"), 140));
}

#[test]
fn discovery_refresh_restarts_window() {
    let mut discovery = DiscoveryService::new(30);
    discovery.observe(String::from("node-2"), 100);
    assert!(!discovery.observe(String::from("node-2"), 120));
    assert!(discovery.sweep(130).is_empty(), "refreshed at 120, due at 150");
    assert_eq!(discovery.sweep(150), vec![String::from("node-2")]);
}

#[test]
fn discovery_never_reports_unobserved_peer() {
    let mut discovery = DiscoveryService::new(1);
    discovery.observe(String::from("node-2"), 0);
    let departed = discovery.sweep(1000);
    assert_eq!(departed, vec![String::from("node-2")]);
    assert!(discovery.sweep(2000).is_empty());
}
