use mysql_rust::protocol::packet::{HEADER_LEN, MAX_PAYLOAD};
use mysql_rust::protocol::Packet;
use mysql_rust::Error;

#[test]
fn round_trip_typical_payload() {
    let packet = Packet::new(7, b"hello world".to_vec());
    let bytes = packet.encode();
    let decoded = Packet::decode(&bytes).expect("decode");
    assert_eq!(decoded, packet);
}

#[test]
fn round_trip_empty_payload() {
    let packet = Packet::new(0, Vec::new());
    let bytes = packet.encode();
    // Header only: length 0, seq 0.
    assert_eq!(bytes, vec![0, 0, 0, 0]);
    let decoded = Packet::decode(&bytes).expect("decode");
    assert_eq!(decoded, packet);
}

#[test]
fn header_encodes_length_little_endian() {
    // 0x010203 = 66051 bytes of payload -> LE header bytes 03 02 01.
    let len = 0x01_02_03;
    let packet = Packet::new(0xAB, vec![0u8; len]);
    let bytes = packet.encode();
    assert_eq!(&bytes[..4], &[0x03, 0x02, 0x01, 0xAB]);
}

#[test]
fn preserves_sequence_id() {
    for seq in [0u8, 1, 42, 200, 255] {
        let packet = Packet::new(seq, vec![1, 2, 3]);
        let decoded = Packet::decode(&packet.encode()).expect("decode");
        assert_eq!(decoded.sequence_id, seq);
    }
}

#[test]
fn boundary_max_payload_round_trips() {
    // The largest payload expressible in a single 3-byte length field.
    let packet = Packet::new(9, vec![0xEE; MAX_PAYLOAD]);
    let bytes = packet.encode();
    assert_eq!(bytes.len(), HEADER_LEN + MAX_PAYLOAD);
    assert_eq!(&bytes[..3], &[0xFF, 0xFF, 0xFF]);
    let decoded = Packet::decode(&bytes).expect("decode");
    assert_eq!(decoded.payload.len(), MAX_PAYLOAD);
    assert_eq!(decoded, packet);
}

#[test]
fn parse_reports_incomplete_header() {
    // Fewer than HEADER_LEN bytes: need more data, not an error.
    assert_eq!(Packet::parse(&[]).unwrap(), None);
    assert_eq!(Packet::parse(&[0x05, 0x00]).unwrap(), None);
}

#[test]
fn parse_reports_incomplete_payload() {
    // Header claims 5 payload bytes but only 2 are present.
    let buf = [0x05, 0x00, 0x00, 0x01, 0xAA, 0xBB];
    assert_eq!(Packet::parse(&buf).unwrap(), None);
}

#[test]
fn parse_handles_fragmented_reads() {
    // Simulate a socket delivering one packet across several reads.
    let packet = Packet::new(3, b"fragmented".to_vec());
    let full = packet.encode();

    let mut buf: Vec<u8> = Vec::new();
    for (i, byte) in full.iter().enumerate() {
        // Before the last byte arrives, the packet is not yet parseable.
        assert_eq!(Packet::parse(&buf).unwrap(), None, "premature parse at {i}");
        buf.push(*byte);
    }
    let (decoded, consumed) = Packet::parse(&buf).unwrap().expect("complete now");
    assert_eq!(decoded, packet);
    assert_eq!(consumed, full.len());
}

#[test]
fn parse_consumes_only_first_of_several_packets() {
    let first = Packet::new(1, b"one".to_vec());
    let second = Packet::new(2, b"twotwo".to_vec());

    let mut buf = first.encode();
    buf.extend_from_slice(&second.encode());

    let (p1, consumed1) = Packet::parse(&buf).unwrap().expect("first");
    assert_eq!(p1, first);

    let (p2, consumed2) = Packet::parse(&buf[consumed1..]).unwrap().expect("second");
    assert_eq!(p2, second);
    assert_eq!(consumed1 + consumed2, buf.len());
}

#[test]
fn decode_errors_on_incomplete_buffer() {
    let buf = [0x05, 0x00, 0x00, 0x01, 0xAA]; // needs 5 payload bytes, has 1
    assert!(matches!(Packet::decode(&buf), Err(Error::Protocol(_))));
}
