//! Local peer discovery: announcement tracking with an expiry window.
//!
//! The service keeps, for each peer seen on the local segment, the time of
//! its most recent announcement. A sweep at a later time evicts every peer
//! whose window has fully elapsed and reports each of them once, and never
//! reports a peer earlier or one that was never observed.

use crate::text::{str_eq, string_set};
use vstd::prelude::*;

verus! {

/// One observed peer: its identity and when it last announced.
pub struct PeerRecord {
    /// The stable network identity of the peer.
    pub peer_id: String,
    /// Seconds since the epoch of the most recent observation.
    pub announced_at: u64,
}

/// The mathematical state of the service: each known peer's last
/// announcement time, and the configured expiry window.
#[verifier::ext_equal]
pub ghost struct DiscoveryView {
    /// Last announcement time per known peer.
    pub peers: Map<Seq<char>, u64>,
    /// Seconds a peer may stay silent before it is evicted.
    pub window: u64,
}

/// True when a peer last heard at `last` has fallen silent for the whole
/// window by time `now`.
pub open spec fn is_expired(last: u64, now: u64, window: u64) -> bool {
    now >= last + window
}

/// True when a sweep at `now` reports `peer` as departed.
pub open spec fn departs(v: DiscoveryView, peer: Seq<char>, now: u64) -> bool {
    v.peers.contains_key(peer) && is_expired(v.peers[peer], now, v.window)
}

/// The service state after a sweep at `now`: exactly the peers whose
/// window had not elapsed remain, each with its announcement time kept.
pub open spec fn after_sweep(v: DiscoveryView, now: u64) -> DiscoveryView {
    DiscoveryView {
        peers: Map::new(
            |q: Seq<char>| v.peers.contains_key(q) && !is_expired(v.peers[q], now, v.window),
            |q: Seq<char>| v.peers[q],
        ),
        ..v
    }
}

/// The last announcement time of `peer` among the tracked entries, newest
/// entry first.
pub open spec fn last_seen(es: Seq<PeerRecord>, peer: Seq<char>) -> Option<u64>
    decreases es.len(),
{
    if es.len() == 0 {
        None
    } else if es.last().peer_id@ == peer {
        Some(es.last().announced_at)
    } else {
        last_seen(es.drop_last(), peer)
    }
}

/// True when no peer occurs twice.
spec fn distinct_ids(es: Seq<PeerRecord>) -> bool {
    forall|i: int, j: int| 0 <= i < j < es.len() ==> es[i].peer_id@ != es[j].peer_id@
}

proof fn lemma_last_seen_absent(es: Seq<PeerRecord>, peer: Seq<char>)
    requires
        forall|i: int| 0 <= i < es.len() ==> es[i].peer_id@ != peer,
    ensures
        last_seen(es, peer) is None,
    decreases es.len(),
{
    if es.len() > 0 {
        lemma_last_seen_absent(es.drop_last(), peer);
    }
}

proof fn lemma_last_seen_push(es: Seq<PeerRecord>, e: PeerRecord)
    ensures
        last_seen(es.push(e), e.peer_id@) == Some(e.announced_at),
        forall|q: Seq<char>| q != e.peer_id@ ==> last_seen(es.push(e), q) == last_seen(es, q),
{
    assert(es.push(e).last() == e);
    assert(es.push(e).drop_last() =~= es);
}

proof fn lemma_last_seen_take_step(es: Seq<PeerRecord>, k: int, q: Seq<char>)
    requires
        0 <= k < es.len(),
    ensures
        last_seen(es.take(k + 1), q) == (if es[k].peer_id@ == q {
            Some(es[k].announced_at)
        } else {
            last_seen(es.take(k), q)
        }),
{
    assert(es.take(k + 1).last() == es[k]);
    assert(es.take(k + 1).drop_last() =~= es.take(k));
}

proof fn lemma_last_seen_remove(es: Seq<PeerRecord>, i: int, q: Seq<char>)
    requires
        0 <= i < es.len(),
        q != es[i].peer_id@,
    ensures
        last_seen(es.remove(i), q) == last_seen(es, q),
    decreases es.len(),
{
    if i == es.len() - 1 {
        assert(es.remove(i) =~= es.drop_last());
    } else {
        assert(es.remove(i).last() == es.last());
        assert(es.remove(i).drop_last() =~= es.drop_last().remove(i));
        if es.last().peer_id@ != q {
            lemma_last_seen_remove(es.drop_last(), i, q);
        }
    }
}

/// The discovery service state owned by one node.
pub struct DiscoveryService {
    entries: Vec<PeerRecord>,
    expiry_window: u64,
}

impl View for DiscoveryService {
    type V = DiscoveryView;

    closed spec fn view(&self) -> DiscoveryView {
        DiscoveryView {
            peers: Map::new(
                |q: Seq<char>| last_seen(self.entries@, q) is Some,
                |q: Seq<char>| last_seen(self.entries@, q).unwrap(),
            ),
            window: self.expiry_window,
        }
    }
}

impl DiscoveryService {
    /// Internal consistency: each peer is tracked at most once.
    pub closed spec fn wf(&self) -> bool {
        distinct_ids(self.entries@)
    }

    /// A fresh service that evicts peers silent for `expiry_window`
    /// seconds.
    pub fn new(expiry_window: u64) -> (r: Self)
        ensures
            r.wf(),
            r@ =~= (DiscoveryView { peers: Map::empty(), window: expiry_window }),
    {
        let r = DiscoveryService { entries: Vec::new(), expiry_window };
        proof {
            assert(r@.peers =~= Map::<Seq<char>, u64>::empty());
        }
        r
    }

    /// Records an announcement from `peer_id` at time `now`, creating or
    /// refreshing its entry; returns whether the peer is newly joined.
    pub fn observe(&mut self, peer_id: String, now: u64) -> (fresh: bool)
        requires
            old(self).wf(),
        ensures
            final(self).wf(),
            fresh == !old(self)@.peers.contains_key(peer_id@),
            final(self)@.peers == old(self)@.peers.insert(peer_id@, now),
            final(self)@.window == old(self)@.window,
    {
        let ghost es0 = self.entries@;
        let mut k: usize = 0;
        let mut found = false;
        while k < self.entries.len() && !found
            invariant
                self == old(self),
                es0 == self.entries@,
                k <= es0.len(),
                found ==> k < es0.len() && es0[k as int].peer_id@ == peer_id@,
                !found ==> forall|i: int| 0 <= i < k ==> es0[i].peer_id@ != peer_id@,
            decreases es0.len() - k + (if found {
                0int
            } else {
                1int
            }),
        {
            if str_eq(self.entries[k].peer_id.as_str(), peer_id.as_str()) {
                found = true;
            } else {
                k += 1;
            }
        }
        let ghost removed = if found {
            es0.remove(k as int)
        } else {
            es0
        };
        if found {
            self.entries.remove(k);
        }
        proof {
            if found {
                assert forall|q: Seq<char>| q != peer_id@ implies last_seen(removed, q)
                    == last_seen(es0, q) by {
                    lemma_last_seen_remove(es0, k as int, q);
                }
                assert forall|i: int| 0 <= i < removed.len() implies removed[i].peer_id@
                    != peer_id@ by {
                    if i < k {
                        assert(removed[i] == es0[i]);
                    } else {
                        assert(removed[i] == es0[i + 1]);
                    }
                }
                lemma_last_seen_absent(removed, peer_id@);
                assert forall|a: int, b: int| 0 <= a < b < removed.len() implies removed[a].peer_id@
                    != removed[b].peer_id@ by {
                    let a0: int = if a < k { a } else { a + 1 };
                    let b0: int = if b < k { b } else { b + 1 };
                    assert(removed[a] == es0[a0]);
                    assert(removed[b] == es0[b0]);
                    assert(es0[a0].peer_id@ != es0[b0].peer_id@);
                }
            } else {
                lemma_last_seen_absent(es0, peer_id@);
            }
            if found {
                lemma_last_seen_present(es0, k as int);
            }
        }
        let entry = PeerRecord { peer_id, announced_at: now };
        proof {
            lemma_last_seen_push(self.entries@, entry);
            assert(distinct_ids(removed));
        }
        self.entries.push(entry);
        proof {
            assert(self@.peers =~= old(self)@.peers.insert(entry.peer_id@, now));
            assert(distinct_ids(self.entries@)) by {
                assert forall|a: int, b: int|
                    0 <= a < b < self.entries@.len() implies self.entries@[a].peer_id@
                    != self.entries@[b].peer_id@ by {
                    if b < removed.len() {
                        assert(removed[a].peer_id@ != removed[b].peer_id@);
                    } else {
                        assert(self.entries@[b] == entry);
                        if found {
                            assert(removed[a].peer_id@ != entry.peer_id@);
                        } else {
                            if removed[a].peer_id@ == entry.peer_id@ {
                                assert(false);
                            }
                        }
                    }
                }
            }
        }
        !found
    }

    /// Evicts every peer whose expiry window has fully elapsed by `now` and
    /// returns each departed peer exactly once; peers still within their
    /// window, and peers never observed, are not reported.
    pub fn sweep(&mut self, now: u64) -> (departed: Vec<String>)
        requires
            old(self).wf(),
        ensures
            final(self).wf(),
            final(self)@ =~= after_sweep(old(self)@, now),
            string_set(departed@) =~= Set::new(|q: Seq<char>| departs(old(self)@, q, now)),
            forall|i: int, j: int| 0 <= i < j < departed@.len() ==> departed@[i]@ != departed@[j]@,
    {
        let ghost es0 = self.entries@;
        let mut kept: Vec<PeerRecord> = Vec::new();
        let mut departed: Vec<String> = Vec::new();
        let mut k: usize = 0;
        proof {
            assert(es0.take(0) =~= Seq::<PeerRecord>::empty());
        }
        while k < self.entries.len()
            invariant
                self == old(self),
                es0 == self.entries@,
                distinct_ids(es0),
                k <= es0.len(),
                self.expiry_window == old(self).expiry_window,
                distinct_ids(kept@),
                forall|i: int, j: int|
                    0 <= i < j < departed@.len() ==> departed@[i]@ != departed@[j]@,
                forall|q: Seq<char>|
                    #![trigger last_seen(es0.take(k as int), q)]
                    {
                        &&& (last_seen(es0.take(k as int), q) is None ==> last_seen(kept@, q)
                            is None && !string_set(departed@).contains(q))
                        &&& (last_seen(es0.take(k as int), q) is Some && is_expired(
                            last_seen(es0.take(k as int), q).unwrap(),
                            now,
                            self.expiry_window,
                        ) ==> last_seen(kept@, q) is None && string_set(departed@).contains(q))
                        &&& (last_seen(es0.take(k as int), q) is Some && !is_expired(
                            last_seen(es0.take(k as int), q).unwrap(),
                            now,
                            self.expiry_window,
                        ) ==> last_seen(kept@, q) == last_seen(es0.take(k as int), q)
                            && !string_set(departed@).contains(q))
                    },
                forall|s: Seq<char>|
                    string_set(departed@).contains(s) ==> last_seen(es0.take(k as int), s) is Some,
                forall|q: Seq<char>|
                    last_seen(kept@, q) is Some ==> last_seen(es0.take(k as int), q) is Some,
            decreases es0.len() - k,
        {
            let ghost kept0 = kept@;
            let ghost departed0 = departed@;
            proof {
                assert(es0.take(k + 1).last() == es0[k as int]);
                assert(es0.take(k + 1).drop_last() =~= es0.take(k as int));
                assert forall|i: int| 0 <= i < k implies es0[i].peer_id@
                    != es0[k as int].peer_id@ by {
                    assert(es0[i].peer_id@ != es0[k as int].peer_id@);
                }
                assert forall|i: int| 0 <= i < es0.take(k as int).len() implies es0.take(
                    k as int,
                )[i].peer_id@ != es0[k as int].peer_id@ by {
                    assert(es0.take(k as int)[i] == es0[i]);
                }
                lemma_last_seen_absent(es0.take(k as int), es0[k as int].peer_id@);
            }
            let last = self.entries[k].announced_at;
            let expired = if now >= last {
                now - last >= self.expiry_window
            } else {
                false
            };
            let ghost e = es0[k as int];
            proof {
                assert(expired == is_expired(e.announced_at, now, self.expiry_window));
            }
            if expired {
                let id = self.entries[k].peer_id.clone();
                proof {
                    crate::text::lemma_string_set_push(departed0, id);
                    if last_seen(kept0, e.peer_id@) is Some {
                        assert(last_seen(es0.take(k as int), e.peer_id@) is Some);
                        assert(false);
                    }
                }
                departed.push(id);
                proof {
                    assert forall|i: int, j: int| 0 <= i < j < departed@.len() implies departed@[i]@
                        != departed@[j]@ by {
                        if j < departed0.len() {
                            assert(departed0[i]@ != departed0[j]@);
                        } else {
                            assert(departed@[j] == id);
                            if departed0[i]@ == id@ {
                                assert(string_set(departed0).contains(id@)) by {
                                    assert(departed0[i]@ == id@);
                                }
                                assert(false);
                            }
                        }
                    }
                }
            } else {
                let entry = PeerRecord {
                    peer_id: self.entries[k].peer_id.clone(),
                    announced_at: last,
                };
                proof {
                    lemma_last_seen_push(kept0, entry);
                    if string_set(departed0).contains(e.peer_id@) {
                        assert(last_seen(es0.take(k as int), e.peer_id@) is Some);
                        assert(false);
                    }
                    assert forall|a: int, b: int| 0 <= a < b < kept0.push(entry).len() implies kept0
                        .push(entry)[a].peer_id@ != kept0.push(entry)[b].peer_id@ by {
                        if b < kept0.len() {
                            assert(kept0[a].peer_id@ != kept0[b].peer_id@);
                        } else {
                            assert(kept0.push(entry)[b] == entry);
                            if kept0[a].peer_id@ == entry.peer_id@ {
                                assert(last_seen(kept0, entry.peer_id@) is Some) by {
                                    lemma_last_seen_present(kept0, a);
                                }
                                assert(false);
                            }
                        }
                    }
                }
                kept.push(entry);
            }
            proof {
                let kept1 = kept@;
                let departed1 = departed@;
                assert forall|q: Seq<char>|
                    #![trigger last_seen(es0.take(k + 1), q)]
                    {
                        &&& (last_seen(es0.take(k + 1), q) is None ==> last_seen(kept1, q)
                            is None && !string_set(departed1).contains(q))
                        &&& (last_seen(es0.take(k + 1), q) is Some && is_expired(
                            last_seen(es0.take(k + 1), q).unwrap(),
                            now,
                            self.expiry_window,
                        ) ==> last_seen(kept1, q) is None && string_set(departed1).contains(q))
                        &&& (last_seen(es0.take(k + 1), q) is Some && !is_expired(
                            last_seen(es0.take(k + 1), q).unwrap(),
                            now,
                            self.expiry_window,
                        ) ==> last_seen(kept1, q) == last_seen(es0.take(k + 1), q)
                            && !string_set(departed1).contains(q))
                        &&& (string_set(departed1).contains(q) ==> last_seen(es0.take(k + 1), q)
                            is Some)
                        &&& (last_seen(kept1, q) is Some ==> last_seen(es0.take(k + 1), q)
                            is Some)
                    } by {
                    lemma_last_seen_take_step(es0, k as int, q);
                    assert(last_seen(es0.take(k as int), e.peer_id@) is None);
                    if q != e.peer_id@ {
                        assert(last_seen(es0.take(k + 1), q) == last_seen(es0.take(k as int), q));
                    }
                }
            }
            k += 1;
        }
        proof {
            assert(es0.take(es0.len() as int) =~= es0);
        }
        self.entries = kept;
        proof {
            assert(final(self)@.peers =~= after_sweep(old(self)@, now).peers);
            assert(string_set(departed@) =~= Set::new(
                |q: Seq<char>| departs(old(self)@, q, now),
            ));
        }
        departed
    }
}

proof fn lemma_last_seen_present(es: Seq<PeerRecord>, i: int)
    requires
        0 <= i < es.len(),
    ensures
        last_seen(es, es[i].peer_id@) is Some,
    decreases es.len(),
{
    if i == es.len() - 1 {
    } else if es.last().peer_id@ == es[i].peer_id@ {
    } else {
        lemma_last_seen_present(es.drop_last(), i);
    }
}

/// Discovery liveness: a peer last announced at `last` is reported as
/// departed by any sweep once its window has fully elapsed, and by no
/// sweep before that.
pub proof fn lemma_departure_exact(
    v: DiscoveryView,
    peer: Seq<char>,
    last: u64,
    t_early: u64,
    t_due: u64,
)
    requires
        v.peers.contains_key(peer),
        v.peers[peer] == last,
        t_early < last + v.window,
        t_due >= last + v.window,
    ensures
        !departs(v, peer, t_early),
        departs(v, peer, t_due),
{
}

} // verus!
