use txnode::codec::{decode, TransactionRecord};

fn sample_record() -> TransactionRecord {
    TransactionRecord {
        signature: String::from("signature-42"),
        sender: String::from("node-1"),
        timestamp: 1234,
        payload: vec![0, 1, 2, 3],
    }
}

#[test]
fn round_trip_sample_record() {
    let record = sample_record();
    let bytes = record.encode().unwrap();
    let back = decode(&bytes).unwrap();
    assert_eq!(back.signature, "signature-42");
    assert_eq!(back.sender, "node-1");
    assert_eq!(back.timestamp, 1234);
    assert_eq!(back.payload, vec![0, 1, 2, 3]);
}

#[test]
fn round_trip_empty_fields() {
    let record = TransactionRecord {
        signature: String::new(),
        sender: String::new(),
        timestamp: 0,
        payload: Vec::new(),
    };
    let bytes = record.encode().unwrap();
    let back = decode(&bytes).unwrap();
    assert_eq!(back.signature, "");
    assert_eq!(back.sender, "");
    assert_eq!(back.timestamp, 0);
    assert!(back.payload.is_empty());
}

#[test]
fn round_trip_unicode_sender() {
    let record = TransactionRecord {
        signature: String::from("signature-0"),
        sender: String::from("nœud-\u{2603}"),
        timestamp: u64::MAX,
        payload: vec![255, 0, 128],
    };
    let bytes = record.encode().unwrap();
    let back = decode(&bytes).unwrap();
    assert_eq!(back.sender, "nœud-\u{2603}");
    assert_eq!(back.timestamp, u64::MAX);
    assert_eq!(back.payload, vec![255, 0, 128]);
}

#[test]
fn wire_format_matches_bincode() {
    let record = sample_record();
    let bytes = record.encode().unwrap();
    let reference = bincode::serialize(&(
        String::from("signature-42"),
        String::from("node-1"),
        1234u64,
        vec![0u8, 1, 2, 3],
    ))
    .unwrap();
    assert_eq!(bytes, reference);
}

#[test]
fn wire_format_exact_layout() {
    let record = TransactionRecord {
        signature: String::from("ab"),
        sender: String::from("c"),
        timestamp: 0x0102,
        payload: vec![9],
    };
    let bytes = record.encode().unwrap();
    let expected: Vec<u8> = vec![
        2, 0, 0, 0, 0, 0, 0, 0, // signature length
        b'a', b'b', // signature bytes
        1, 0, 0, 0, 0, 0, 0, 0, // sender length
        b'c', // sender bytes
        2, 1, 0, 0, 0, 0, 0, 0, // timestamp, little endian
        1, 0, 0, 0, 0, 0, 0, 0, // payload length
        9, // payload bytes
    ];
    assert_eq!(bytes, expected);
}

#[test]
fn decode_rejects_truncated_input() {
    let bytes = sample_record().encode().unwrap();
    for cut in 0..bytes.len() {
        assert!(decode(&bytes[..cut]).is_err(), "cut at {cut} must fail");
    }
}

#[test]
fn decode_rejects_trailing_bytes() {
    let mut bytes = sample_record().encode().unwrap();
    bytes.push(0);
    assert!(decode(&bytes).is_err());
}

#[test]
fn decode_rejects_overlong_length_prefix() {
    // A declared signature length far past the end of the input.
    let mut bytes = vec![255u8; 8];
    bytes.extend_from_slice(&[0u8; 16]);
    assert!(decode(&bytes).is_err());
}

#[test]
fn decode_rejects_invalid_text() {
    // Signature declared as one byte that is not valid UTF-8.
    let record = TransactionRecord {
        signature: String::from("x"),
        sender: String::new(),
        timestamp: 0,
        payload: Vec::new(),
    };
    let mut bytes = record.encode().unwrap();
    bytes[8] = 0xFF;
    assert!(decode(&bytes).is_err());
}

#[test]
fn decode_is_inverse_on_valid_bytes() {
    let record = sample_record();
    let bytes = record.encode().unwrap();
    let back = decode(&bytes).unwrap();
    let again = back.encode().unwrap();
    assert_eq!(bytes, again);
}
