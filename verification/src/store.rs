//! Replicated key/value storage in the style of a distributed hash table.
//!
//! The store keeps the local copy of every record written or learned and the
//! routing candidates the node knows. A write lands in the local copy first
//! and reports how replication toward the candidates fares; a read is
//! answered local-first, so a write followed by a read of the same key
//! returns the value just written.

use crate::text::str_eq;
use vstd::prelude::*;
use vstd::slice::slice_to_vec;

verus! {

/// One stored record: a namespaced byte key, its value, the peer asserting
/// it, and an optional expiry (none means the record does not expire).
pub struct StoredRecord {
    /// The namespaced byte key.
    pub key: Vec<u8>,
    /// The raw value bytes.
    pub value: Vec<u8>,
    /// The peer identity asserting this value.
    pub publisher: String,
    /// Seconds since the epoch after which the record lapses; `None` means
    /// it never does.
    pub expiry: Option<u64>,
}

/// The mathematical value of a stored record, minus its key.
#[verifier::ext_equal]
pub ghost struct RecordData {
    /// The raw value bytes.
    pub value: Seq<u8>,
    /// The peer identity asserting this value.
    pub publisher: Seq<char>,
    /// The optional expiry.
    pub expiry: Option<u64>,
}

impl StoredRecord {
    /// The record's value, publisher and expiry as one mathematical value.
    pub open spec fn data(self) -> RecordData {
        RecordData { value: self.value@, publisher: self.publisher@, expiry: self.expiry }
    }
}

/// Returned when a write cannot reach its acknowledgment count.
#[derive(Debug, PartialEq, Eq, Structural)]
pub enum StoreError {
    /// The routing table offers no candidate to replicate to.
    NoPeers,
    /// Candidates exist, but fewer than the required acknowledgment count.
    QuorumNotMet,
}

/// The mathematical state of the store: the local records and the known
/// routing candidates in the order they were learned.
#[verifier::ext_equal]
pub ghost struct StoreView {
    /// The local copy, newest write per key.
    pub records: Map<Seq<u8>, RecordData>,
    /// The routing candidates, each known once.
    pub peers: Seq<Seq<char>>,
}

/// The newest record under `key`, scanning from the most recent write.
pub open spec fn lookup(rs: Seq<StoredRecord>, key: Seq<u8>) -> Option<RecordData>
    decreases rs.len(),
{
    if rs.len() == 0 {
        None
    } else if rs.last().key@ == key {
        Some(rs.last().data())
    } else {
        lookup(rs.drop_last(), key)
    }
}

/// The map holding, for each key ever written, its newest record.
pub open spec fn record_map(rs: Seq<StoredRecord>) -> Map<Seq<u8>, RecordData> {
    Map::new(|k: Seq<u8>| lookup(rs, k) is Some, |k: Seq<u8>| lookup(rs, k).unwrap())
}

/// The routing candidates after one peer is learned: unchanged when the
/// peer is already known, appended otherwise.
pub open spec fn note_peer_spec(peers: Seq<Seq<char>>, peer: Seq<char>) -> Seq<Seq<char>> {
    if peers.contains(peer) {
        peers
    } else {
        peers.push(peer)
    }
}

/// The store state after a write: the key now holds the new data.
pub open spec fn put_spec(v: StoreView, key: Seq<u8>, data: RecordData) -> StoreView {
    StoreView { records: v.records.insert(key, data), ..v }
}

/// The answer a read gives: the newest value under the key, if any.
pub open spec fn get_spec(v: StoreView, key: Seq<u8>) -> Option<Seq<u8>> {
    if v.records.contains_key(key) {
        Some(v.records[key].value)
    } else {
        None
    }
}

/// The local half of the distributed store owned by one node.
pub struct DistributedStore {
    records: Vec<StoredRecord>,
    peers: Vec<String>,
}

/// True when no string occurs twice.
spec fn distinct_peer_list(v: Seq<String>) -> bool {
    forall|i: int, j: int| 0 <= i < j < v.len() ==> v[i]@ != v[j]@
}

impl View for DistributedStore {
    type V = StoreView;

    closed spec fn view(&self) -> StoreView {
        StoreView {
            records: record_map(self.records@),
            peers: self.peers@.map_values(|p: String| p@),
        }
    }
}

/// Compares two byte strings.
pub fn bytes_eq(a: &[u8], b: &[u8]) -> (r: bool)
    ensures
        r == (a@ == b@),
{
    if a.len() != b.len() {
        return false;
    }
    let n = a.len();
    let mut k: usize = 0;
    while k < n
        invariant
            n == a@.len() == b@.len(),
            forall|i: int| 0 <= i < k ==> a@[i] == b@[i],
        decreases n - k,
    {
        if a[k] != b[k] {
            return false;
        }
        k += 1;
    }
    proof {
        assert(a@ =~= b@);
    }
    true
}

proof fn lemma_lookup_push(rs: Seq<StoredRecord>, r: StoredRecord)
    ensures
        lookup(rs.push(r), r.key@) == Some(r.data()),
        forall|k: Seq<u8>| k != r.key@ ==> lookup(rs.push(r), k) == lookup(rs, k),
{
    assert(rs.push(r).last() == r);
    assert(rs.push(r).drop_last() =~= rs);
}

impl DistributedStore {
    /// Internal consistency: the candidate list holds no peer twice.
    pub closed spec fn wf(&self) -> bool {
        distinct_peer_list(self.peers@)
    }

    /// A fresh store with no records and no routing candidates.
    pub fn new() -> (r: Self)
        ensures
            r.wf(),
            r@ =~= (StoreView { records: Map::empty(), peers: Seq::empty() }),
    {
        let r = DistributedStore { records: Vec::new(), peers: Vec::new() };
        proof {
            assert(r@.records =~= Map::<Seq<u8>, RecordData>::empty());
            assert(r@.peers =~= Seq::<Seq<char>>::empty());
        }
        r
    }

    /// Learns a routing candidate, keeping each peer once; returns whether
    /// it was new. Mirrors the routing table being updated opportunistically
    /// as peers are learned from discovery or gossip relays.
    pub fn note_peer(&mut self, peer_id: String) -> (fresh: bool)
        requires
            old(self).wf(),
        ensures
            final(self).wf(),
            fresh == !old(self)@.peers.contains(peer_id@),
            final(self)@.records == old(self)@.records,
            final(self)@.peers == note_peer_spec(old(self)@.peers, peer_id@),
    {
        let ghost peers0 = self.peers@;
        let mut k: usize = 0;
        let mut found = false;
        while k < self.peers.len() && !found
            invariant
                self == old(self),
                k <= peers0.len(),
                peers0 == self.peers@,
                found ==> k < peers0.len() && peers0[k as int]@ == peer_id@,
                !found ==> forall|i: int| 0 <= i < k ==> peers0[i]@ != peer_id@,
            decreases peers0.len() - k + (if found {
                0int
            } else {
                1int
            }),
        {
            if str_eq(self.peers[k].as_str(), peer_id.as_str()) {
                found = true;
            } else {
                k += 1;
            }
        }
        proof {
            let mapped = peers0.map_values(|p: String| p@);
            if found {
                assert(mapped[k as int] == peer_id@);
                assert(old(self)@.peers.contains(peer_id@));
            } else {
                if old(self)@.peers.contains(peer_id@) {
                    let i = choose|i: int| 0 <= i < mapped.len() && mapped[i] == peer_id@;
                    assert(peers0[i]@ == peer_id@);
                    assert(false);
                }
            }
        }
        if found {
            false
        } else {
            proof {
                assert(self.records@ == old(self).records@);
            }
            self.peers.push(peer_id);
            proof {
                assert(self.peers@.map_values(|p: String| p@) =~= peers0.map_values(
                    |p: String| p@,
                ).push(self.peers@.last()@));
                assert forall|a: int, b: int| 0 <= a < b < self.peers@.len() implies self.peers@[a]@
                    != self.peers@[b]@ by {
                    if b < peers0.len() {
                        assert(peers0[a]@ != peers0[b]@);
                    } else {
                        assert(peers0[a]@ != peer_id@);
                    }
                }
            }
            true
        }
    }

    /// Writes a record: the local copy is updated first in every case, then
    /// replication toward the routing candidates is initiated. The result
    /// reports [`StoreError::NoPeers`] exactly when no candidate is known,
    /// [`StoreError::QuorumNotMet`] exactly when candidates exist but fewer
    /// than `quorum`, and success otherwise.
    pub fn put(&mut self, record: StoredRecord, quorum: usize) -> (r: Result<(), StoreError>)
        requires
            old(self).wf(),
            quorum >= 1,
        ensures
            final(self).wf(),
            final(self)@ == put_spec(old(self)@, record.key@, record.data()),
            match r {
                Ok(()) => old(self)@.peers.len() >= quorum,
                Err(StoreError::NoPeers) => old(self)@.peers.len() == 0,
                Err(StoreError::QuorumNotMet) => 0 < old(self)@.peers.len() < quorum,
            },
    {
        let ghost records0 = self.records@;
        let ghost key = record.key@;
        let ghost data = record.data();
        let n_peers = self.peers.len();
        self.records.push(record);
        proof {
            lemma_lookup_push(records0, self.records@.last());
            assert(record_map(self.records@) =~= record_map(records0).insert(key, data));
            assert(final(self)@ =~= put_spec(old(self)@, key, data));
        }
        if n_peers == 0 {
            Err(StoreError::NoPeers)
        } else if n_peers < quorum {
            Err(StoreError::QuorumNotMet)
        } else {
            Ok(())
        }
    }

    /// Reads the newest value under a key from the local copy; answers
    /// nothing exactly when the key was never written.
    pub fn get(&self, key: &[u8]) -> (r: Option<Vec<u8>>)
        ensures
            match r {
                Some(v) => get_spec(self@, key@) == Some(v@),
                None => get_spec(self@, key@) is None,
            },
    {
        let ghost rs = self.records@;
        proof {
            assert(rs.take(rs.len() as int) =~= rs);
        }
        let mut k: usize = self.records.len();
        while k > 0
            invariant
                self.records@ == rs,
                k <= rs.len(),
                lookup(rs, key@) == lookup(rs.take(k as int), key@),
            decreases k,
        {
            proof {
                assert(rs.take(k as int).last() == rs[k - 1]);
                assert(rs.take(k as int).drop_last() =~= rs.take(k - 1));
            }
            if bytes_eq(self.records[k - 1].key.as_slice(), key) {
                let out = slice_to_vec(self.records[k - 1].value.as_slice());
                proof {
                    assert(lookup(rs.take(k as int), key@) == Some(rs[k - 1].data()));
                    assert(record_map(rs).contains_key(key@));
                }
                return Some(out);
            }
            k -= 1;
        }
        proof {
            assert(rs.take(0) =~= Seq::<StoredRecord>::empty());
            assert(lookup(rs, key@) is None);
            assert(!record_map(rs).contains_key(key@));
        }
        None
    }
}

/// Local-first read consistency: a write followed by a read of the same
/// key from the same node returns the value just written, already at the
/// least acknowledgment count of one.
pub proof fn lemma_put_then_get(v: StoreView, key: Seq<u8>, data: RecordData)
    ensures
        get_spec(put_spec(v, key, data), key) == Some(data.value),
{
}

} // verus!
