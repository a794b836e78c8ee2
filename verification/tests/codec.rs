use packet_ipc::codec::decode;
use packet_ipc::codec::decode_frame;
use packet_ipc::codec::encode;
use packet_ipc::codec::encode_batch_frame;
use packet_ipc::codec::encode_sentinel_frame;
use packet_ipc::errors::CodecError;
use packet_ipc::packet::AsIpcPacket;
use packet_ipc::packet::IpcPacket;
use packet_ipc::packet::Packet;
use packet_ipc::packet::Timestamp;

#[test]
fn round_trip_preserves_timestamp_and_payload() {
    let p = Packet::new(Timestamp::new(123, 456), vec![1, 2, 3, 250]);
    let bytes = encode(&p);
    let q = decode(&bytes).expect("decode failed");
    assert_eq!(q.ts, Timestamp::new(123, 456));
    assert_eq!(q.data, vec![1, 2, 3, 250]);
}

#[test]
fn round_trip_of_empty_payload() {
    let p = Packet::new(Timestamp::new(0, 0), vec![]);
    let bytes = encode(&p);
    let q = decode(&bytes).expect("decode failed");
    assert_eq!(q.ts, Timestamp::new(0, 0));
    assert!(q.data.is_empty());
}

#[test]
fn round_trip_of_largest_timestamp() {
    let p = Packet::new(Timestamp::new(u64::MAX, 999_999_999), vec![0]);
    let bytes = encode(&p);
    let q = decode(&bytes).expect("decode failed");
    assert_eq!(q.ts, Timestamp::new(u64::MAX, 999_999_999));
    assert_eq!(q.data, vec![0]);
}

#[test]
fn encode_layout_is_little_endian_length_prefixed() {
    let p = Packet::new(Timestamp::new(1, 2), vec![9]);
    let bytes = encode(&p);
    let mut expected = vec![1u8, 0, 0, 0, 0, 0, 0, 0];
    expected.extend_from_slice(&[2, 0, 0, 0]);
    expected.extend_from_slice(&[1, 0, 0, 0, 0, 0, 0, 0]);
    expected.push(9);
    assert_eq!(bytes, expected);
}

#[test]
fn wire_adapter_carries_fields_unchanged() {
    let p = Packet::new(Timestamp::new(7, 8), vec![4, 5]);
    let wire = IpcPacket::from_source(&p);
    let back = Packet::from(wire);
    assert_eq!(back.ts, Timestamp::new(7, 8));
    assert_eq!(back.data, vec![4, 5]);
    assert_eq!(p.into_data(), vec![4, 5]);
}

#[test]
fn from_wire_record_takes_ownership() {
    let wire = IpcPacket::from_source(&Packet::new(Timestamp::new(9, 10), vec![6]));
    let p = Packet::from(wire);
    assert_eq!(p.ts, Timestamp::new(9, 10));
    assert_eq!(p.data, vec![6]);
}

#[test]
fn capability_accessors_expose_the_fields() {
    let p = Packet::new(Timestamp::new(11, 12), vec![13]);
    assert_eq!(*p.timestamp(), Timestamp::new(11, 12));
    assert_eq!(p.data(), vec![13]);
}

#[test]
fn decode_rejects_truncated_header() {
    let bytes = vec![0u8; 10];
    assert_eq!(decode(&bytes).unwrap_err(), CodecError::Truncated);
}

#[test]
fn decode_rejects_truncated_payload() {
    // Header announces a one-byte payload that never follows.
    let mut bytes = vec![0u8; 12];
    bytes.extend_from_slice(&[1, 0, 0, 0, 0, 0, 0, 0]);
    assert_eq!(decode(&bytes).unwrap_err(), CodecError::Truncated);
}

#[test]
fn decode_rejects_corrupt_timestamp() {
    // One billion nanoseconds, little endian, in the nanos field.
    let mut bytes = vec![0u8; 8];
    bytes.extend_from_slice(&[0x00, 0xca, 0x9a, 0x3b]);
    bytes.extend_from_slice(&[0, 0, 0, 0, 0, 0, 0, 0]);
    assert_eq!(decode(&bytes).unwrap_err(), CodecError::CorruptTimestamp);
}

#[test]
fn decode_rejects_trailing_bytes() {
    let p = Packet::new(Timestamp::new(3, 4), vec![5]);
    let mut bytes = encode(&p);
    bytes.push(0);
    assert_eq!(decode(&bytes).unwrap_err(), CodecError::TrailingBytes);
}

#[test]
fn frame_decode_rejects_unknown_tag() {
    let bytes = vec![7u8];
    assert_eq!(decode_frame(&bytes).unwrap_err(), CodecError::UnknownTag);
}

#[test]
fn frame_decode_rejects_empty_message() {
    let bytes: Vec<u8> = vec![];
    assert_eq!(decode_frame(&bytes).unwrap_err(), CodecError::Truncated);
}

#[test]
fn frame_decode_rejects_missing_records() {
    // A data frame announcing one record, with no record following.
    let bytes = vec![1u8, 1, 0, 0, 0, 0, 0, 0, 0];
    assert_eq!(decode_frame(&bytes).unwrap_err(), CodecError::Truncated);
}

#[test]
fn sentinel_must_stand_alone() {
    let bytes = vec![0u8, 0];
    assert_eq!(decode_frame(&bytes).unwrap_err(), CodecError::TrailingBytes);
}

#[test]
fn batch_frame_round_trip() {
    let batch = vec![
        Packet::new(Timestamp::new(1, 1), vec![10, 11]),
        Packet::new(Timestamp::new(2, 2), vec![]),
        Packet::new(Timestamp::new(3, 3), vec![12]),
    ];
    let bytes = encode_batch_frame(&batch);
    let frame = decode_frame(&bytes).expect("frame decode failed");
    let records = frame.expect("data frame decoded as sentinel");
    assert_eq!(records.len(), 3);
    assert_eq!(records[0].ts, Timestamp::new(1, 1));
    assert_eq!(records[0].data, vec![10, 11]);
    assert_eq!(records[1].ts, Timestamp::new(2, 2));
    assert!(records[1].data.is_empty());
    assert_eq!(records[2].ts, Timestamp::new(3, 3));
    assert_eq!(records[2].data, vec![12]);
}

#[test]
fn empty_batch_is_a_distinct_valid_frame() {
    let empty: Vec<Packet> = vec![];
    let batch_bytes = encode_batch_frame(&empty);
    let sentinel_bytes = encode_sentinel_frame();
    assert_ne!(batch_bytes, sentinel_bytes);
    let frame = decode_frame(&batch_bytes).expect("frame decode failed");
    let records = frame.expect("empty batch decoded as end-of-stream");
    assert!(records.is_empty());
    let sentinel = decode_frame(&sentinel_bytes).expect("sentinel decode failed");
    assert!(sentinel.is_none());
}
