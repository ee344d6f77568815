//! Topic-based publish/subscribe with content-addressed deduplication.
//!
//! The overlay keeps the set of subscribed topics, the set of peers that are
//! always kept in the mesh, and the set of content identifiers already seen.
//! An inbound relay is delivered at most once per distinct content
//! identifier, whatever peer relayed it.

use crate::text::{lemma_string_set_push, str_eq, string_set};
use vstd::prelude::*;

verus! {

/// The content identifier of a byte payload: a fingerprint that depends on
/// the bytes alone, so identical payloads relayed over different paths
/// collapse to one identifier.
pub uninterp spec fn content_id_of(content: Seq<u8>) -> u64;

/// Relies on `std::collections::hash_map::DefaultHasher`: hashers made by
/// `DefaultHasher::new` are all the same, so the digest of a byte sequence
/// depends on the bytes alone.
#[verifier::external_body]
fn hash_bytes(content: &Vec<u8>) -> (r: u64)
    ensures
        r == content_id_of(content@),
{
    let mut s = std::collections::hash_map::DefaultHasher::new();
    std::hash::Hash::hash(content, &mut s);
    std::hash::Hasher::finish(&s)
}

/// Computes the content identifier of a payload.
pub fn content_id(content: &Vec<u8>) -> (r: u64)
    ensures
        r == content_id_of(content@),
{
    hash_bytes(content)
}

/// The largest payload the overlay will frame and relay, in bytes.
pub const MAX_MESSAGE_SIZE: usize = 65536;

/// A message delivered by the overlay to the application layer.
pub struct GossipMessage {
    /// The raw bytes of the message.
    pub content: Vec<u8>,
    /// The fingerprint of `content`, used for deduplication and as a
    /// storage key suffix.
    pub content_id: u64,
    /// The peer that relayed the message to this node, not necessarily its
    /// author.
    pub origin_peer: String,
}

/// Returned when a subscription is requested for an invalid topic
/// configuration; a topic with an empty name is the one invalid
/// configuration.
#[derive(Debug, PartialEq, Eq, Structural)]
pub struct SubscriptionError;

/// Returned when a payload cannot be published.
#[derive(Debug, PartialEq, Eq, Structural)]
pub enum PublishError {
    /// The payload exceeds [`MAX_MESSAGE_SIZE`].
    MessageTooLarge,
}

/// The mathematical state of the overlay.
#[verifier::ext_equal]
pub ghost struct GossipOverlayView {
    /// Names of the subscribed topics.
    pub topics: Set<Seq<char>>,
    /// Peers always kept in the mesh.
    pub explicit_peers: Set<Seq<char>>,
    /// Content identifiers already seen at this node.
    pub seen: Set<u64>,
}

/// The set of the elements of a vector of identifiers.
pub open spec fn id_set(v: Seq<u64>) -> Set<u64> {
    Set::new(|x: u64| exists|i: int| 0 <= i < v.len() && v[i] == x)
}

proof fn lemma_id_set_push(v: Seq<u64>, x: u64)
    ensures
        id_set(v.push(x)) =~= id_set(v).insert(x),
{
    let w = v.push(x);
    assert forall|y: u64| id_set(w).contains(y) implies id_set(v).insert(x).contains(y) by {
        let i = choose|i: int| 0 <= i < w.len() && w[i] == y;
        if i < v.len() {
            assert(v[i] == y);
        }
    }
    assert forall|y: u64| id_set(v).insert(x).contains(y) implies id_set(w).contains(y) by {
        if y == x {
            assert(w[v.len() as int] == y);
        } else {
            let i = choose|i: int| 0 <= i < v.len() && v[i] == y;
            assert(w[i] == y);
        }
    }
}

/// True when an inbound relay of `data` on `topic` is delivered to the
/// application layer: the topic is subscribed and the content is new.
pub open spec fn gossip_delivers(v: GossipOverlayView, topic: Seq<char>, data: Seq<u8>) -> bool {
    v.topics.contains(topic) && !v.seen.contains(content_id_of(data))
}

/// The overlay state after one inbound relay of `data` on `topic`.
pub open spec fn after_receive(v: GossipOverlayView, topic: Seq<char>, data: Seq<u8>)
    -> GossipOverlayView {
    if gossip_delivers(v, topic, data) {
        GossipOverlayView { seen: v.seen.insert(content_id_of(data)), ..v }
    } else {
        v
    }
}

/// The publish/subscribe overlay state owned by one node.
pub struct GossipOverlay {
    topics: Vec<String>,
    explicit_peers: Vec<String>,
    seen: Vec<u64>,
}

/// True when no string occurs twice.
spec fn distinct_strings(v: Seq<String>) -> bool {
    forall|i: int, j: int| 0 <= i < j < v.len() ==> v[i]@ != v[j]@
}

impl View for GossipOverlay {
    type V = GossipOverlayView;

    closed spec fn view(&self) -> GossipOverlayView {
        GossipOverlayView {
            topics: string_set(self.topics@),
            explicit_peers: string_set(self.explicit_peers@),
            seen: id_set(self.seen@),
        }
    }
}

fn contains_string(v: &Vec<String>, s: &str) -> (r: bool)
    ensures
        r == string_set(v@).contains(s@),
{
    let mut k: usize = 0;
    while k < v.len()
        invariant
            k <= v@.len(),
            forall|i: int| 0 <= i < k ==> v@[i]@ != s@,
        decreases v@.len() - k,
    {
        if str_eq(v[k].as_str(), s) {
            return true;
        }
        k += 1;
    }
    proof {
        if string_set(v@).contains(s@) {
            let i = choose|i: int| 0 <= i < v@.len() && v@[i]@ == s@;
            assert(false);
        }
    }
    false
}

fn contains_id(v: &Vec<u64>, x: u64) -> (r: bool)
    ensures
        r == id_set(v@).contains(x),
{
    let mut k: usize = 0;
    while k < v.len()
        invariant
            k <= v@.len(),
            forall|i: int| 0 <= i < k ==> v@[i] != x,
        decreases v@.len() - k,
    {
        if v[k] == x {
            return true;
        }
        k += 1;
    }
    proof {
        if id_set(v@).contains(x) {
            let i = choose|i: int| 0 <= i < v@.len() && v@[i] == x;
            assert(false);
        }
    }
    false
}

impl GossipOverlay {
    /// Internal consistency: the explicit peer list holds no peer twice.
    pub closed spec fn wf(&self) -> bool {
        distinct_strings(self.explicit_peers@)
    }

    /// A fresh overlay with no subscriptions, no explicit peers and nothing
    /// seen.
    pub fn new() -> (r: Self)
        ensures
            r.wf(),
            r@ =~= (GossipOverlayView {
                topics: Set::empty(),
                explicit_peers: Set::empty(),
                seen: Set::empty(),
            }),
    {
        let r = GossipOverlay { topics: Vec::new(), explicit_peers: Vec::new(), seen: Vec::new() };
        proof {
            assert(r@.topics =~= Set::<Seq<char>>::empty());
            assert(r@.explicit_peers =~= Set::<Seq<char>>::empty());
            assert(r@.seen =~= Set::<u64>::empty());
        }
        r
    }

    /// Registers interest in a topic. Reports [`SubscriptionError`] exactly
    /// on the invalid (empty) topic configuration; otherwise returns whether
    /// the subscription is new.
    pub fn subscribe(&mut self, topic: String) -> (r: Result<bool, SubscriptionError>)
        requires
            old(self).wf(),
        ensures
            final(self).wf(),
            match r {
                Ok(fresh) => {
                    &&& topic@.len() > 0
                    &&& fresh == !old(self)@.topics.contains(topic@)
                    &&& final(self)@ =~= (GossipOverlayView {
                        topics: old(self)@.topics.insert(topic@),
                        ..old(self)@
                    })
                },
                Err(_) => topic@.len() == 0 && final(self)@ =~= old(self)@,
            },
    {
        if topic.as_str().is_empty() {
            return Err(SubscriptionError);
        }
        let fresh = !contains_string(&self.topics, topic.as_str());
        let ghost topics0 = self.topics@;
        if fresh {
            proof {
                lemma_string_set_push(topics0, topic);
            }
            self.topics.push(topic);
        } else {
            proof {
                assert(string_set(topics0).insert(topic@) =~= string_set(topics0));
            }
        }
        Ok(fresh)
    }

    /// Frames a payload and floods it to the mesh best-effort: the publish
    /// succeeds and returns the payload's content identifier even with zero
    /// reachable peers, and fails exactly when the payload exceeds
    /// [`MAX_MESSAGE_SIZE`]. The content counts as seen afterwards, so a
    /// later relay of the same bytes is not delivered back to this node.
    pub fn publish(&mut self, data: &Vec<u8>) -> (r: Result<u64, PublishError>)
        requires
            old(self).wf(),
        ensures
            final(self).wf(),
            match r {
                Ok(id) => {
                    &&& data@.len() <= MAX_MESSAGE_SIZE
                    &&& id == content_id_of(data@)
                    &&& final(self)@ =~= (GossipOverlayView {
                        seen: old(self)@.seen.insert(id),
                        ..old(self)@
                    })
                },
                Err(_) => data@.len() > MAX_MESSAGE_SIZE && final(self)@ =~= old(self)@,
            },
    {
        if data.len() > MAX_MESSAGE_SIZE {
            return Err(PublishError::MessageTooLarge);
        }
        let id = hash_bytes(data);
        let ghost seen0 = self.seen@;
        if !contains_id(&self.seen, id) {
            proof {
                lemma_id_set_push(seen0, id);
            }
            self.seen.push(id);
        } else {
            proof {
                assert(id_set(seen0).insert(id) =~= id_set(seen0));
            }
        }
        Ok(id)
    }

    /// Adds a peer that the mesh always includes; returns whether it was
    /// new.
    pub fn add_explicit_peer(&mut self, peer_id: String) -> (r: bool)
        requires
            old(self).wf(),
        ensures
            final(self).wf(),
            r == !old(self)@.explicit_peers.contains(peer_id@),
            final(self)@ =~= (GossipOverlayView {
                explicit_peers: old(self)@.explicit_peers.insert(peer_id@),
                ..old(self)@
            }),
    {
        let fresh = !contains_string(&self.explicit_peers, peer_id.as_str());
        let ghost peers0 = self.explicit_peers@;
        if fresh {
            proof {
                lemma_string_set_push(peers0, peer_id);
            }
            self.explicit_peers.push(peer_id);
        } else {
            proof {
                assert(string_set(peers0).insert(peer_id@) =~= string_set(peers0));
            }
        }
        fresh
    }

    /// Drops a peer from the always-included set; returns whether it was
    /// present.
    pub fn remove_explicit_peer(&mut self, peer_id: &str) -> (r: bool)
        requires
            old(self).wf(),
        ensures
            final(self).wf(),
            r == old(self)@.explicit_peers.contains(peer_id@),
            final(self)@ =~= (GossipOverlayView {
                explicit_peers: old(self)@.explicit_peers.remove(peer_id@),
                ..old(self)@
            }),
    {
        let ghost peers0 = self.explicit_peers@;
        let mut k: usize = 0;
        while k < self.explicit_peers.len()
            invariant
                self.explicit_peers@ == peers0,
                self.topics@ == old(self).topics@,
                self.seen@ == old(self).seen@,
                peers0 == old(self).explicit_peers@,
                distinct_strings(peers0),
                k <= peers0.len(),
                forall|i: int| 0 <= i < k ==> peers0[i]@ != peer_id@,
            decreases peers0.len() - k,
        {
            if str_eq(self.explicit_peers[k].as_str(), peer_id) {
                self.explicit_peers.remove(k);
                proof {
                    let kept = self.explicit_peers@;
                    assert(peers0[k as int]@ == peer_id@);
                    assert(forall|i: int|
                        0 <= i < kept.len() ==> kept[i] == (if i < k {
                            peers0[i]
                        } else {
                            peers0[i + 1]
                        }));
                    assert forall|s: Seq<char>| string_set(kept).contains(s) implies string_set(
                        peers0,
                    ).remove(peer_id@).contains(s) by {
                        let i = choose|i: int| 0 <= i < kept.len() && kept[i]@ == s;
                        if i < k {
                            assert(peers0[i]@ == s);
                            assert(s != peer_id@);
                        } else {
                            assert(peers0[i + 1]@ == s);
                            assert(peers0[k as int]@ != peers0[i + 1]@);
                        }
                    }
                    assert forall|s: Seq<char>|
                        string_set(peers0).remove(peer_id@).contains(s) implies string_set(
                        kept,
                    ).contains(s) by {
                        let i = choose|i: int| 0 <= i < peers0.len() && peers0[i]@ == s;
                        if i < k {
                            assert(kept[i]@ == s);
                        } else {
                            assert(i != k);
                            assert(kept[i - 1]@ == s);
                        }
                    }
                    assert(string_set(kept) =~= string_set(peers0).remove(peer_id@));
                    assert(string_set(peers0).contains(peer_id@)) by {
                        assert(peers0[k as int]@ == peer_id@);
                    }
                    assert forall|a: int, b: int| 0 <= a < b < kept.len() implies kept[a]@
                        != kept[b]@ by {
                        let a0: int = if a < k { a } else { a + 1 };
                        let b0: int = if b < k { b } else { b + 1 };
                        assert(kept[a] == peers0[a0]);
                        assert(kept[b] == peers0[b0]);
                        assert(peers0[a0]@ != peers0[b0]@);
                    }
                    assert(distinct_strings(kept));
                }
                return true;
            }
            k += 1;
        }
        proof {
            if string_set(peers0).contains(peer_id@) {
                let i = choose|i: int| 0 <= i < peers0.len() && peers0[i]@ == peer_id@;
                assert(false);
            }
            assert(string_set(peers0) =~= string_set(peers0).remove(peer_id@));
        }
        false
    }

    /// One inbound relay of `data` on `topic` from `origin_peer`. Returns
    /// the delivered message when the topic is subscribed and the content is
    /// new at this node; a duplicate relay, whatever peer it came through,
    /// is silently dropped.
    pub fn receive(&mut self, origin_peer: &str, topic: &str, data: Vec<u8>) -> (r: Option<
        GossipMessage,
    >)
        requires
            old(self).wf(),
        ensures
            final(self).wf(),
            final(self)@ =~= after_receive(old(self)@, topic@, data@),
            r is Some <==> gossip_delivers(old(self)@, topic@, data@),
            r matches Some(m) ==> {
                &&& m.content@ == data@
                &&& m.content_id == content_id_of(data@)
                &&& m.origin_peer@ == origin_peer@
            },
    {
        if !contains_string(&self.topics, topic) {
            return None;
        }
        let id = hash_bytes(&data);
        if contains_id(&self.seen, id) {
            return None;
        }
        let ghost seen0 = self.seen@;
        proof {
            lemma_id_set_push(seen0, id);
        }
        self.seen.push(id);
        Some(GossipMessage { content: data, content_id: id, origin_peer: origin_peer.to_owned() })
    }
}

/// Deduplication law: once a relay of `data` on `topic` has been handled —
/// delivered or not — no later relay of the same bytes is delivered again,
/// whatever peer relays it.
pub proof fn lemma_deliver_at_most_once(v: GossipOverlayView, topic: Seq<char>, data: Seq<u8>)
    ensures
        !gossip_delivers(after_receive(v, topic, data), topic, data),
{
}

/// Content identifiers are content-addressed: equal payloads have equal
/// identifiers, whatever route each travelled.
pub proof fn lemma_content_id_deterministic(p1: Seq<u8>, p2: Seq<u8>)
    requires
        p1 == p2,
    ensures
        content_id_of(p1) == content_id_of(p2),
{
}

} // verus!
