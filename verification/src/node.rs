//! The node orchestrator: one step function over a closed set of event
//! kinds, wiring local input, discovery events and inbound gossip into the
//! overlay and the store.
//!
//! The orchestrator owns the local peer identity and one instance of each
//! subsystem; every cross-subsystem effect goes through [`Node::handle_event`],
//! which returns the outward actions — publishes and replications — for the
//! surrounding runtime to perform.

use crate::codec::{decode_spec, TransactionRecord, TransactionRecordView};
use crate::gossip::{
    after_receive, content_id_of, gossip_delivers, GossipOverlay, GossipOverlayView,
    SubscriptionError, MAX_MESSAGE_SIZE,
};
use crate::store::{
    note_peer_spec, DistributedStore, RecordData, StoreView, StoredRecord,
};
use crate::text::{decimal_chars, make_key, namespaced_key, u64_to_decimal};
use vstd::prelude::*;
use vstd::slice::slice_to_vec;
use vstd::string::StringExecFns;
use vstd::utf8::encode_utf8;

verus! {

/// Relies on `rand::random`: a fresh pseudo-random value each call;
/// nothing is promised of it.
#[verifier::external_body]
fn random_u64() -> u64 {
    rand::random::<u64>()
}

/// One event the orchestrator reacts to; any kind outside this set is
/// carried as [`NodeEvent::Unknown`] and ignored.
pub enum NodeEvent {
    /// A line of local input arrived; its text is not part of the payload.
    InputLine,
    /// Discovery reported a peer announcing on the local segment.
    PeerJoined {
        /// The announcing peer.
        peer_id: String,
    },
    /// Discovery reported a peer whose announcements expired.
    PeerLeft {
        /// The expired peer.
        peer_id: String,
    },
    /// A gossip frame arrived from the wire, not yet deduplicated.
    MessageReceived {
        /// The peer that relayed the frame here.
        origin_peer: String,
        /// The topic the frame travelled on.
        topic: String,
        /// The raw frame bytes.
        data: Vec<u8>,
    },
    /// The store updated its routing table; informational only.
    RoutingUpdated {
        /// The peer that joined the table.
        peer_id: String,
    },
    /// A background store query progressed; informational only.
    OutboundQueryProgressed,
    /// The transport bound a local listen address; informational only.
    NewListenAddr {
        /// The bound address, as text.
        address: String,
    },
    /// An event kind this orchestrator does not know; ignored.
    Unknown,
}

/// One outward action the surrounding runtime performs on the network.
pub enum NodeAction {
    /// Flood the framed bytes on the topic.
    Publish {
        /// The topic to flood on.
        topic: String,
        /// The framed bytes.
        data: Vec<u8>,
    },
    /// Replicate a record toward the peers closest to its key.
    Replicate {
        /// The record to replicate.
        record: StoredRecord,
        /// Acknowledgments required before the write counts as done.
        quorum: usize,
    },
    /// Always include this peer in the gossip mesh.
    AddPeer {
        /// The peer to include.
        peer_id: String,
    },
    /// Stop always including this peer.
    RemovePeer {
        /// The peer to drop.
        peer_id: String,
    },
}

/// The mathematical state of a node.
#[verifier::ext_equal]
pub ghost struct NodeView {
    /// The local peer identity.
    pub peer_id: Seq<char>,
    /// The fixed topic transactions travel on.
    pub topic: Seq<char>,
    /// The overlay state.
    pub gossip: GossipOverlayView,
    /// The store state.
    pub store: StoreView,
}

/// The payload placed in every locally authored transaction.
pub open spec fn placeholder_payload() -> Seq<u8> {
    seq![0u8, 1u8, 2u8, 3u8]
}

/// The record a node with identity `sender` authors at time `now` with
/// entropy `nonce`.
pub open spec fn authored_record(sender: Seq<char>, now: u64, nonce: u64)
    -> TransactionRecordView {
    TransactionRecordView {
        signature: "signature-"@ + decimal_chars(nonce as nat),
        sender: sender,
        timestamp: now,
        payload: placeholder_payload(),
    }
}

/// The store key of the transaction with content identifier `id`.
pub open spec fn transaction_key_spec(id: u64) -> Seq<u8> {
    namespaced_key("transaction:"@, decimal_chars(id as nat))
}

/// The store key of a peer identity.
pub open spec fn peer_key_spec(peer: Seq<char>) -> Seq<u8> {
    namespaced_key("peer:"@, peer)
}

/// Builds the signature token of a locally authored record.
pub fn signature_token(nonce: u64) -> (r: String)
    ensures
        r@ == "signature-"@ + decimal_chars(nonce as nat),
{
    let mut s = String::from_str("signature-");
    let digits = u64_to_decimal(nonce);
    s.append(digits.as_str());
    s
}

/// Builds the transaction a node authors for one input line.
pub fn build_transaction(sender: String, now: u64, nonce: u64) -> (r: TransactionRecord)
    ensures
        r@ == authored_record(sender@, now, nonce),
{
    let mut payload: Vec<u8> = Vec::new();
    payload.push(0);
    payload.push(1);
    payload.push(2);
    payload.push(3);
    proof {
        assert(payload@ =~= placeholder_payload());
    }
    TransactionRecord { signature: signature_token(nonce), sender, timestamp: now, payload }
}

/// Builds the store key of the transaction with content identifier `id`.
pub fn transaction_key(id: u64) -> (r: Vec<u8>)
    ensures
        r@ == transaction_key_spec(id),
{
    let digits = u64_to_decimal(id);
    make_key("transaction:", digits.as_str())
}

/// Builds the store key of a peer identity.
pub fn peer_key(peer_id: &str) -> (r: Vec<u8>)
    ensures
        r@ == peer_key_spec(peer_id@),
{
    make_key("peer:", peer_id)
}

/// True when `a` replicates, at quorum one and without expiry, a record
/// with the given key, value and publisher.
pub open spec fn is_replicate(
    a: NodeAction,
    key: Seq<u8>,
    value: Seq<u8>,
    publisher: Seq<char>,
) -> bool {
    a matches NodeAction::Replicate { record, quorum } && record.key@ == key && record.value@
        == value && record.publisher@ == publisher && record.expiry is None && quorum == 1
}

/// What one input line does to a node: a transaction authored with the
/// node's identity, stamped `now`, salted with `nonce`, is encoded and
/// flooded on the node's topic; an oversized encoding is reported and
/// dropped instead, and nothing else changes.
pub open spec fn input_line_post(
    pre: NodeView,
    post: NodeView,
    actions: Seq<NodeAction>,
    now: u64,
    nonce: u64,
) -> bool {
    let bytes = authored_record(pre.peer_id, now, nonce).encoding();
    &&& post.peer_id == pre.peer_id
    &&& post.topic == pre.topic
    &&& post.store == pre.store
    &&& if bytes.len() <= MAX_MESSAGE_SIZE {
        &&& post.gossip == (GossipOverlayView {
            seen: pre.gossip.seen.insert(content_id_of(bytes)),
            ..pre.gossip
        })
        &&& actions.len() == 1
        &&& (actions[0] matches NodeAction::Publish { topic, data } && topic@ == pre.topic
            && data@ == bytes)
    } else {
        post.gossip == pre.gossip && actions.len() == 0
    }
}

/// What one inbound gossip frame does to a node: the relaying peer is
/// learned as a routing candidate; the frame is delivered at most once per
/// content identifier; a delivered frame that decodes is written to the
/// store — the encoded transaction under its content key and the relaying
/// peer's identity under its peer key, both at quorum one — and the same
/// two writes are handed out for replication; a duplicate or undecodable
/// frame changes nothing else and is dropped.
pub open spec fn message_received_post(
    pre: NodeView,
    post: NodeView,
    actions: Seq<NodeAction>,
    origin: Seq<char>,
    topic: Seq<char>,
    data: Seq<u8>,
) -> bool {
    let id = content_id_of(data);
    let tx_data = RecordData { value: data, publisher: origin, expiry: None };
    let peer_data = RecordData { value: encode_utf8(origin), publisher: origin, expiry: None };
    &&& post.peer_id == pre.peer_id
    &&& post.topic == pre.topic
    &&& post.gossip == after_receive(pre.gossip, topic, data)
    &&& post.store.peers == note_peer_spec(pre.store.peers, origin)
    &&& if gossip_delivers(pre.gossip, topic, data) && decode_spec(data) is Some {
        &&& post.store.records == pre.store.records.insert(
            transaction_key_spec(id),
            tx_data,
        ).insert(peer_key_spec(origin), peer_data)
        &&& actions.len() == 2
        &&& is_replicate(actions[0], transaction_key_spec(id), data, origin)
        &&& is_replicate(actions[1], peer_key_spec(origin), encode_utf8(origin), origin)
    } else {
        post.store.records == pre.store.records && actions.len() == 0
    }
}

/// One peer-to-peer node: the local identity, the fixed topic, and the
/// gossip and store subsystems, wired by the event step function.
pub struct Node {
    peer_id: String,
    topic: String,
    gossip: GossipOverlay,
    store: DistributedStore,
}

impl View for Node {
    type V = NodeView;

    closed spec fn view(&self) -> NodeView {
        NodeView {
            peer_id: self.peer_id@,
            topic: self.topic@,
            gossip: self.gossip@,
            store: self.store@,
        }
    }
}

impl Node {
    /// Internal consistency of the subsystems.
    pub closed spec fn wf(&self) -> bool {
        self.gossip.wf() && self.store.wf()
    }

    /// Starts a node: takes ownership of the identity, subscribes to the
    /// topic, and begins with an empty overlay and store. Fails exactly on
    /// the invalid (empty) topic, before any event is handled.
    pub fn new(peer_id: String, topic: String) -> (r: Result<Node, SubscriptionError>)
        ensures
            match r {
                Ok(n) => {
                    &&& topic@.len() > 0
                    &&& n.wf()
                    &&& n@ =~= (NodeView {
                        peer_id: peer_id@,
                        topic: topic@,
                        gossip: GossipOverlayView {
                            topics: Set::empty().insert(topic@),
                            explicit_peers: Set::empty(),
                            seen: Set::empty(),
                        },
                        store: StoreView { records: Map::empty(), peers: Seq::empty() },
                    })
                },
                Err(_) => topic@.len() == 0,
            },
    {
        let mut gossip = GossipOverlay::new();
        match gossip.subscribe(topic.clone()) {
            Ok(_) => {},
            Err(e) => {
                return Err(e);
            },
        }
        let store = DistributedStore::new();
        Ok(Node { peer_id, topic, gossip, store })
    }

    /// The local peer identity.
    pub fn peer_id(&self) -> (r: &String)
        ensures
            r@ == self@.peer_id,
    {
        &self.peer_id
    }

    /// Reads the newest value under a key from the node's local store copy.
    pub fn get(&self, key: &[u8]) -> (r: Option<Vec<u8>>)
        ensures
            match r {
                Some(v) => crate::store::get_spec(self@.store, key@) == Some(v@),
                None => crate::store::get_spec(self@.store, key@) is None,
            },
    {
        self.store.get(key)
    }

    /// One step of the event loop: dispatches an event, updates the
    /// subsystems, and returns the outward actions for the runtime to
    /// perform. No event kind terminates the loop; failures are dropped
    /// with the triggering input.
    pub fn handle_event(&mut self, event: NodeEvent, now: u64) -> (actions: Vec<NodeAction>)
        requires
            old(self).wf(),
        ensures
            final(self).wf(),
            match event {
                NodeEvent::InputLine => exists|nonce: u64|
                    input_line_post(old(self)@, final(self)@, actions@, now, nonce),
                NodeEvent::PeerJoined { peer_id } => {
                    &&& final(self)@ =~= (NodeView {
                        gossip: GossipOverlayView {
                            explicit_peers: old(self)@.gossip.explicit_peers.insert(peer_id@),
                            ..old(self)@.gossip
                        },
                        store: StoreView {
                            peers: note_peer_spec(old(self)@.store.peers, peer_id@),
                            ..old(self)@.store
                        },
                        ..old(self)@
                    })
                    &&& actions@.len() == 1
                    &&& (actions@[0] matches NodeAction::AddPeer { peer_id: p } && p@ == peer_id@)
                },
                NodeEvent::PeerLeft { peer_id } => {
                    &&& final(self)@ =~= (NodeView {
                        gossip: GossipOverlayView {
                            explicit_peers: old(self)@.gossip.explicit_peers.remove(peer_id@),
                            ..old(self)@.gossip
                        },
                        ..old(self)@
                    })
                    &&& actions@.len() == 1
                    &&& (actions@[0] matches NodeAction::RemovePeer { peer_id: p } && p@
                        == peer_id@)
                },
                NodeEvent::MessageReceived { origin_peer, topic, data } => message_received_post(
                    old(self)@,
                    final(self)@,
                    actions@,
                    origin_peer@,
                    topic@,
                    data@,
                ),
                _ => (final(self)@ =~= old(self)@) && actions@.len() == 0,
            },
    {
        let mut actions: Vec<NodeAction> = Vec::new();
        match event {
            NodeEvent::InputLine => {
                let nonce = random_u64();
                let record = build_transaction(self.peer_id.clone(), now, nonce);
                let bytes = match record.encode() {
                    Ok(b) => b,
                    Err(_) => {
                        proof {
                            assert(false);
                        }
                        Vec::new()
                    },
                };
                match self.gossip.publish(&bytes) {
                    Ok(_) => {
                        actions.push(NodeAction::Publish { topic: self.topic.clone(), data: bytes });
                    },
                    Err(_) => {},
                }
                proof {
                    assert(input_line_post(old(self)@, self@, actions@, now, nonce));
                }
            },
            NodeEvent::PeerJoined { peer_id } => {
                self.gossip.add_explicit_peer(peer_id.clone());
                self.store.note_peer(peer_id.clone());
                actions.push(NodeAction::AddPeer { peer_id });
            },
            NodeEvent::PeerLeft { peer_id } => {
                self.gossip.remove_explicit_peer(peer_id.as_str());
                actions.push(NodeAction::RemovePeer { peer_id });
            },
            NodeEvent::MessageReceived { origin_peer, topic, data } => {
                self.store.note_peer(origin_peer.clone());
                let delivered = self.gossip.receive(
                    origin_peer.as_str(),
                    topic.as_str(),
                    data,
                );
                match delivered {
                    Some(message) => {
                        match crate::codec::decode(message.content.as_slice()) {
                            Ok(_) => {
                                let tx_key = transaction_key(message.content_id);
                                let tx_record = StoredRecord {
                                    key: tx_key,
                                    value: message.content,
                                    publisher: origin_peer.clone(),
                                    expiry: None,
                                };
                                let replica = StoredRecord {
                                    key: transaction_key(message.content_id),
                                    value: slice_to_vec(tx_record.value.as_slice()),
                                    publisher: origin_peer.clone(),
                                    expiry: None,
                                };
                                let _ = self.store.put(tx_record, 1);
                                actions.push(NodeAction::Replicate { record: replica, quorum: 1 });
                                let id_bytes = slice_to_vec(origin_peer.as_str().as_bytes());
                                let peer_record = StoredRecord {
                                    key: peer_key(origin_peer.as_str()),
                                    value: id_bytes,
                                    publisher: origin_peer.clone(),
                                    expiry: None,
                                };
                                let peer_replica = StoredRecord {
                                    key: peer_key(origin_peer.as_str()),
                                    value: slice_to_vec(peer_record.value.as_slice()),
                                    publisher: origin_peer.clone(),
                                    expiry: None,
                                };
                                let _ = self.store.put(peer_record, 1);
                                actions.push(NodeAction::Replicate {
                                    record: peer_replica,
                                    quorum: 1,
                                });
                            },
                            Err(_) => {},
                        }
                    },
                    None => {},
                }
            },
            NodeEvent::RoutingUpdated { .. } => {},
            NodeEvent::OutboundQueryProgressed => {},
            NodeEvent::NewListenAddr { .. } => {},
            NodeEvent::Unknown => {},
        }
        actions
    }
}

/// Deduplication law at the node: when the same payload reaches a node
/// twice, through any two relay paths, the second arrival is dropped — it
/// produces no store writes and no replications.
pub proof fn lemma_node_handles_content_once(
    pre: NodeView,
    mid: NodeView,
    post: NodeView,
    first_actions: Seq<NodeAction>,
    second_actions: Seq<NodeAction>,
    origin_a: Seq<char>,
    origin_b: Seq<char>,
    topic: Seq<char>,
    data: Seq<u8>,
)
    requires
        message_received_post(pre, mid, first_actions, origin_a, topic, data),
        message_received_post(mid, post, second_actions, origin_b, topic, data),
    ensures
        second_actions.len() == 0,
        post.store.records == mid.store.records,
{
    crate::gossip::lemma_deliver_at_most_once(pre.gossip, topic, data);
}

} // verus!
