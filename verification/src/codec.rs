//! Binary codec for transaction records.
//!
//! A record is laid out as four fields in a fixed order with no header:
//! each text field as an 8-byte little-endian byte length followed by its
//! UTF-8 bytes, the timestamp as 8 little-endian bytes, and the payload as
//! an 8-byte little-endian length followed by the raw bytes. Decoding is
//! the exact inverse of encoding.

use vstd::prelude::*;
use vstd::bytes::{
    lemma_auto_spec_u64_to_from_le_bytes, spec_u64_from_le_bytes, spec_u64_to_le_bytes,
    u64_from_le_bytes, u64_to_le_bytes,
};
use vstd::slice::{slice_subrange, slice_to_vec};
use vstd::utf8::{
    decode_utf8, encode_utf8, encode_utf8_decode_utf8,
    encode_utf8_valid_utf8, valid_utf8,
};

verus! {

broadcast use vstd::slice::group_slice_axioms;

/// A signed transaction as it travels between nodes. The signature is an
/// opaque token and is never checked; the record is immutable once built.
pub struct TransactionRecord {
    /// Opaque signature token; a placeholder, never verified.
    pub signature: String,
    /// Identifier of the peer that authored the record.
    pub sender: String,
    /// Seconds since the epoch, fixed at creation.
    pub timestamp: u64,
    /// Raw transaction data.
    pub payload: Vec<u8>,
}

/// The mathematical value of a [`TransactionRecord`].
#[verifier::ext_equal]
pub ghost struct TransactionRecordView {
    /// Characters of the signature token.
    pub signature: Seq<char>,
    /// Characters of the sender identifier.
    pub sender: Seq<char>,
    /// Seconds since the epoch.
    pub timestamp: u64,
    /// Raw transaction data.
    pub payload: Seq<u8>,
}

impl View for TransactionRecord {
    type V = TransactionRecordView;

    open spec fn view(&self) -> TransactionRecordView {
        TransactionRecordView {
            signature: self.signature@,
            sender: self.sender@,
            timestamp: self.timestamp,
            payload: self.payload@,
        }
    }
}

impl TransactionRecordView {
    /// A record is representable when each variable-length field fits the
    /// 8-byte length prefix of the wire format.
    pub open spec fn wf(self) -> bool {
        &&& encode_utf8(self.signature).len() <= u64::MAX
        &&& encode_utf8(self.sender).len() <= u64::MAX
        &&& self.payload.len() <= u64::MAX
    }

    /// The wire bytes of this record.
    pub open spec fn encoding(self) -> Seq<u8> {
        len_prefixed(encode_utf8(self.signature)) + len_prefixed(encode_utf8(self.sender))
            + spec_u64_to_le_bytes(self.timestamp) + len_prefixed(self.payload)
    }
}

/// A byte block preceded by its length as 8 little-endian bytes.
pub open spec fn len_prefixed(bytes: Seq<u8>) -> Seq<u8> {
    spec_u64_to_le_bytes(bytes.len() as u64) + bytes
}

/// True when a length-prefixed block starting at `start` lies within `b`.
pub open spec fn has_block(b: Seq<u8>, start: int) -> bool {
    &&& 0 <= start
    &&& start + 8 <= b.len()
    &&& start + 8 + spec_u64_from_le_bytes(b.subrange(start, start + 8)) <= b.len()
}

/// The declared length of the block starting at `start`.
pub open spec fn block_len(b: Seq<u8>, start: int) -> int {
    spec_u64_from_le_bytes(b.subrange(start, start + 8)) as int
}

/// The bytes of the block starting at `start`.
pub open spec fn block_bytes(b: Seq<u8>, start: int) -> Seq<u8> {
    b.subrange(start + 8, start + 8 + block_len(b, start))
}

/// The first position after the block starting at `start`.
pub open spec fn block_end(b: Seq<u8>, start: int) -> int {
    start + 8 + block_len(b, start)
}

/// The record encoded in `b`, or `None` when `b` is truncated, carries
/// text fields that are not valid UTF-8, or has trailing bytes.
pub open spec fn decode_spec(b: Seq<u8>) -> Option<TransactionRecordView> {
    if !has_block(b, 0) {
        None
    } else {
        let sig_bytes = block_bytes(b, 0);
        let p1 = block_end(b, 0);
        if !valid_utf8(sig_bytes) || !has_block(b, p1) {
            None
        } else {
            let sender_bytes = block_bytes(b, p1);
            let p2 = block_end(b, p1);
            if !valid_utf8(sender_bytes) || p2 + 8 > b.len() {
                None
            } else {
                let ts = spec_u64_from_le_bytes(b.subrange(p2, p2 + 8));
                let p3 = p2 + 8;
                if !has_block(b, p3) || block_end(b, p3) != b.len() {
                    None
                } else {
                    Some(
                        TransactionRecordView {
                            signature: decode_utf8(sig_bytes),
                            sender: decode_utf8(sender_bytes),
                            timestamp: ts,
                            payload: block_bytes(b, p3),
                        },
                    )
                }
            }
        }
    }
}

/// Returned when a record cannot be encoded; no representable record
/// triggers it.
#[derive(Debug, PartialEq, Eq, Structural)]
pub struct EncodingError;

/// Returned when bytes do not form the encoding of any record.
#[derive(Debug, PartialEq, Eq, Structural)]
pub struct DecodingError;

/// Appends a length-prefixed block to `out`.
fn push_block(out: &mut Vec<u8>, bytes: &[u8])
    ensures
        final(out)@ == old(out)@ + len_prefixed(bytes@),
{
    let n = bytes.len();
    proof {
        lemma_auto_spec_u64_to_from_le_bytes();
    }
    let prefix = u64_to_le_bytes(n as u64);
    out.extend_from_slice(prefix.as_slice());
    out.extend_from_slice(bytes);
    proof {
        assert(final(out)@ =~= old(out)@ + len_prefixed(bytes@));
    }
}

impl TransactionRecord {
    /// Serializes the record into its wire bytes. Every record that fits in
    /// memory is representable, so this never reports [`EncodingError`].
    pub fn encode(&self) -> (r: Result<Vec<u8>, EncodingError>)
        ensures
            r is Ok,
            r matches Ok(bytes) ==> self@.wf() && bytes@ == self@.encoding(),
    {
        let sig_bytes = self.signature.as_str().as_bytes();
        let sender_bytes = self.sender.as_str().as_bytes();
        let nsig = sig_bytes.len();
        let nsender = sender_bytes.len();
        let npayload = self.payload.len();
        proof {
            assert(encode_utf8(self.signature@).len() == nsig);
            assert(encode_utf8(self.sender@).len() == nsender);
            assert(self.payload@.len() == npayload);
        }
        let mut out: Vec<u8> = Vec::new();
        push_block(&mut out, sig_bytes);
        push_block(&mut out, sender_bytes);
        proof {
            lemma_auto_spec_u64_to_from_le_bytes();
        }
        let ts_bytes = u64_to_le_bytes(self.timestamp);
        out.extend_from_slice(ts_bytes.as_slice());
        push_block(&mut out, self.payload.as_slice());
        proof {
            assert(out@ =~= self@.encoding());
        }
        Ok(out)
    }
}

/// Relies on `String::from_utf8`: it succeeds exactly on valid UTF-8 and the
/// resulting string holds the characters the bytes encode.
#[verifier::external_body]
pub(crate) fn string_from_utf8(bytes: Vec<u8>) -> (r: Option<String>)
    ensures
        match r {
            Some(s) => valid_utf8(bytes@) && s@ == decode_utf8(bytes@),
            None => !valid_utf8(bytes@),
        },
{
    match String::from_utf8(bytes) {
        Ok(s) => Some(s),
        Err(_) => None,
    }
}

/// Reads the length-prefixed block starting at `pos`, or reports that no
/// well-formed block starts there.
fn read_block(b: &[u8], pos: usize) -> (r: Result<(Vec<u8>, usize), DecodingError>)
    requires
        pos <= b@.len(),
    ensures
        match r {
            Ok((bytes, end)) => {
                &&& has_block(b@, pos as int)
                &&& bytes@ == block_bytes(b@, pos as int)
                &&& end as int == block_end(b@, pos as int)
                &&& pos < end <= b@.len()
            },
            Err(_) => !has_block(b@, pos as int),
        },
{
    if b.len() - pos < 8 {
        return Err(DecodingError);
    }
    let n = u64_from_le_bytes(slice_subrange(b, pos, pos + 8));
    if n > (b.len() - pos - 8) as u64 {
        return Err(DecodingError);
    }
    let len = n as usize;
    let bytes = slice_to_vec(slice_subrange(b, pos + 8, pos + 8 + len));
    Ok((bytes, pos + 8 + len))
}

/// Deserializes wire bytes back into a record; reports [`DecodingError`]
/// exactly when the bytes are not the encoding of any record.
pub fn decode(b: &[u8]) -> (r: Result<TransactionRecord, DecodingError>)
    ensures
        match r {
            Ok(t) => decode_spec(b@) == Some(t@),
            Err(_) => decode_spec(b@) is None,
        },
{
    let (sig_bytes, p1) = match read_block(b, 0) {
        Ok(x) => x,
        Err(e) => {
            return Err(e);
        },
    };
    let signature = match string_from_utf8(sig_bytes) {
        Some(s) => s,
        None => {
            return Err(DecodingError);
        },
    };
    let (sender_bytes, p2) = match read_block(b, p1) {
        Ok(x) => x,
        Err(e) => {
            return Err(e);
        },
    };
    let sender = match string_from_utf8(sender_bytes) {
        Some(s) => s,
        None => {
            return Err(DecodingError);
        },
    };
    if b.len() - p2 < 8 {
        return Err(DecodingError);
    }
    let timestamp = u64_from_le_bytes(slice_subrange(b, p2, p2 + 8));
    let p3 = p2 + 8;
    let (payload, end) = match read_block(b, p3) {
        Ok(x) => x,
        Err(e) => {
            return Err(e);
        },
    };
    if end != b.len() {
        return Err(DecodingError);
    }
    let record = TransactionRecord { signature, sender, timestamp, payload };
    proof {
        assert(decode_spec(b@) == Some(record@)) by {
            assert(record@ =~= decode_spec(b@).unwrap());
        }
    }
    Ok(record)
}

/// Round-trip law: decoding the encoding of any representable record
/// yields that record.
pub proof fn lemma_encode_decode_roundtrip(t: TransactionRecordView)
    requires
        t.wf(),
    ensures
        decode_spec(t.encoding()) == Some(t),
{
    lemma_auto_spec_u64_to_from_le_bytes();
    broadcast use encode_utf8_valid_utf8, encode_utf8_decode_utf8;

    let b = t.encoding();
    let sb = encode_utf8(t.signature);
    let nb = encode_utf8(t.sender);
    let pb = t.payload;
    let p1 = 8 + sb.len() as int;
    let p2 = p1 + 8 + nb.len();
    let p3 = p2 + 8;

    assert(b.subrange(0, 8) =~= spec_u64_to_le_bytes(sb.len() as u64));
    assert(has_block(b, 0) && block_len(b, 0) == sb.len());
    assert(block_bytes(b, 0) =~= sb);
    assert(block_end(b, 0) == p1);

    assert(b.subrange(p1, p1 + 8) =~= spec_u64_to_le_bytes(nb.len() as u64));
    assert(has_block(b, p1) && block_len(b, p1) == nb.len());
    assert(block_bytes(b, p1) =~= nb);
    assert(block_end(b, p1) == p2);

    assert(b.subrange(p2, p2 + 8) =~= spec_u64_to_le_bytes(t.timestamp));

    assert(b.subrange(p3, p3 + 8) =~= spec_u64_to_le_bytes(pb.len() as u64));
    assert(has_block(b, p3) && block_len(b, p3) == pb.len());
    assert(block_bytes(b, p3) =~= pb);
    assert(block_end(b, p3) == b.len());

    assert(decode_spec(b).unwrap() =~= t);
}

} // verus!
