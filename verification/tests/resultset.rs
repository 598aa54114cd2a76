use mysql_rust::protocol::resultset::{encode_binary_row, encode_text_row};
use mysql_rust::protocol::{Cell, ColumnDefinition, ColumnType, ResultSet};

fn sample() -> ResultSet {
    ResultSet {
        columns: vec![ColumnDefinition::new("1", ColumnType::LongLong)],
        rows: vec![vec![Cell::Int(1)]],
    }
}

/// `SERVER_STATUS_AUTOCOMMIT`.
const AUTOCOMMIT: u16 = 0x0002;

#[test]
fn classic_framing_includes_two_eofs() {
    let (packets, next_seq) = sample()
        .to_text_packets(false, AUTOCOMMIT, 5)
        .expect("encode");
    // count, coldef, EOF, row, EOF = 5 packets.
    assert_eq!(packets.len(), 5);
    assert_eq!(next_seq, 10);

    assert_eq!(packets[0].payload, vec![1]); // column count = 1
    assert_eq!(packets[2].payload[0], 0xfe); // EOF after column defs
    assert_eq!(packets[4].payload[0], 0xfe); // trailing EOF
    for (i, p) in packets.iter().enumerate() {
        assert_eq!(p.sequence_id, 5 + i as u8);
    }
}

#[test]
fn deprecate_eof_framing_uses_an_ok_style_terminator() {
    let (packets, next_seq) = sample()
        .to_text_packets(true, AUTOCOMMIT, 0)
        .expect("encode");
    // count, coldef, row, terminator = 4 packets (no mid-stream EOF).
    assert_eq!(packets.len(), 4);
    assert_eq!(next_seq, 4);
    assert_eq!(packets[2].payload, vec![1, b'1']); // row: lenenc "1" (text)
                                                   // Terminator uses the 0xFE header (< 9 bytes) so it can't be mistaken
                                                   // for a data row.
    let terminator = &packets.last().unwrap().payload;
    assert_eq!(terminator[0], 0xfe);
    assert!(terminator.len() < 9);
}

/// Writing into a buffer gives the same bytes as the packets one by one, in
/// both framings and both protocols.
fn assert_encode_into_matches_to_packets(
    result_set: &ResultSet,
    deprecate_eof: bool,
    status_flags: u16,
    start: u8,
) {
    let (text_packets, text_next_seq) = result_set
        .to_text_packets(deprecate_eof, status_flags, start)
        .expect("to_text_packets");
    let mut expected_text = Vec::new();
    for p in &text_packets {
        expected_text.extend(p.encode());
    }
    let mut actual_text = Vec::new();
    let actual_text_next_seq = result_set
        .encode_text_into(&mut actual_text, deprecate_eof, status_flags, start)
        .expect("encode_text_into");
    assert_eq!(actual_text, expected_text);
    assert_eq!(actual_text_next_seq, text_next_seq);

    let (binary_packets, binary_next_seq) = result_set
        .to_binary_packets(deprecate_eof, status_flags, start)
        .expect("to_binary_packets");
    let mut expected_binary = Vec::new();
    for p in &binary_packets {
        expected_binary.extend(p.encode());
    }
    let mut actual_binary = Vec::new();
    let actual_binary_next_seq = result_set
        .encode_binary_into(&mut actual_binary, deprecate_eof, status_flags, start)
        .expect("encode_binary_into");
    assert_eq!(actual_binary, expected_binary);
    assert_eq!(actual_binary_next_seq, binary_next_seq);
}

#[test]
fn encode_into_matches_to_packets_classic_framing() {
    assert_encode_into_matches_to_packets(&sample(), false, AUTOCOMMIT, 5);
}

#[test]
fn encode_into_matches_to_packets_deprecate_eof_framing() {
    assert_encode_into_matches_to_packets(&sample(), true, AUTOCOMMIT, 0);
}

#[test]
fn encode_into_matches_to_packets_multi_row_multi_column_with_nulls() {
    let result_set = ResultSet {
        columns: vec![
            ColumnDefinition::new("id", ColumnType::LongLong),
            ColumnDefinition::new("name", ColumnType::VarString),
        ],
        rows: vec![
            vec![Cell::Int(1), Cell::Text("ada".to_string())],
            vec![Cell::Int(2), Cell::Null],
            vec![Cell::Null, Cell::Text("carol".to_string())],
        ],
    };
    assert_encode_into_matches_to_packets(&result_set, false, AUTOCOMMIT, 3);
    assert_encode_into_matches_to_packets(&result_set, true, AUTOCOMMIT, 3);
}

#[test]
fn encode_into_appends_rather_than_overwriting_a_nonempty_buffer() {
    let mut out = vec![0xAA, 0xBB];
    let next_seq = sample()
        .encode_text_into(&mut out, true, AUTOCOMMIT, 0)
        .expect("encode");
    assert_eq!(
        &out[..2],
        &[0xAA, 0xBB],
        "must append, not clear, the buffer"
    );
    assert!(out.len() > 2);
    assert_eq!(next_seq, 4);
}

#[test]
fn column_definition_layout() {
    let column = ColumnDefinition::new("@@version", ColumnType::VarString);
    let packet = column.to_packet(1).expect("encode");
    // 4 empty/short lenenc strings (def=3+1, ""=1, ""=1, ""=1) then name
    // twice (9 chars each, lenenc-prefixed), then the fixed 13-byte tail.
    let expected_len = (1 + 3) + 1 + 1 + 1 + (1 + 9) + (1 + 9) + 1 + 2 + 4 + 1 + 2 + 1 + 2;
    assert_eq!(packet.payload.len(), expected_len);
    assert_eq!(packet.payload[0], 3); // lenenc length of "def"
    assert_eq!(&packet.payload[1..4], b"def");
}

#[test]
fn text_row_encodes_values_as_lenenc_strings() {
    let packet =
        encode_text_row(&[Cell::Int(1), Cell::Text("hi".to_string())], 2).expect("encode");
    assert_eq!(packet.sequence_id, 2);
    assert_eq!(packet.payload, vec![1, b'1', 2, b'h', b'i']);
}

#[test]
fn text_row_encodes_null_as_the_dedicated_marker() {
    let packet =
        encode_text_row(&[Cell::Null, Cell::Text("x".to_string())], 3).expect("encode");
    assert_eq!(packet.payload, vec![0xfb, 1, b'x']);
}

#[test]
fn binary_row_encodes_int_as_eight_le_bytes() {
    let packet = encode_binary_row(&[Cell::Int(1)], 2).expect("encode");
    // header 0x00, 1-byte null bitmap (all zero), then 8-byte LE int.
    assert_eq!(packet.payload, vec![0x00, 0x00, 1, 0, 0, 0, 0, 0, 0, 0]);
}

#[test]
fn binary_row_encodes_text_as_lenenc_string() {
    let packet = encode_binary_row(&[Cell::Text("hi".to_string())], 0).expect("encode");
    assert_eq!(packet.payload, vec![0x00, 0x00, 2, b'h', b'i']);
}

#[test]
fn binary_row_marks_null_in_the_offset_bitmap() {
    // Two columns: col 0 NULL, col 1 = 7. Binary NULL bitmap has a 2-bit
    // offset, so col 0 is bit 2 -> byte value 0b0000_0100 = 0x04.
    let packet = encode_binary_row(&[Cell::Null, Cell::Int(7)], 0).expect("encode");
    assert_eq!(packet.payload[0], 0x00); // header
    assert_eq!(packet.payload[1], 0x04); // null bitmap: only col 0 (bit 2) set
    assert_eq!(&packet.payload[2..], &[7, 0, 0, 0, 0, 0, 0, 0]); // col 1 only
}
