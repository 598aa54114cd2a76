use mysql_rust::protocol::{AuthMoreData, ErrPacket, OkPacket, CACHING_SHA2_FAST_AUTH_SUCCESS};
use mysql_rust::Error;

#[test]
fn ok_packet_layout() {
    let ok = OkPacket {
        affected_rows: 1,
        last_insert_id: 42,
        status_flags: 0x0002,
        warnings: 0,
        info: String::new(),
    };
    let packet = ok.to_packet(3).expect("encode");
    assert_eq!(packet.sequence_id, 3);
    assert_eq!(
        packet.payload,
        vec![0x00, 0x01, 0x2a, 0x02, 0x00, 0x00, 0x00]
    );
}

#[test]
fn err_packet_layout() {
    let err = ErrPacket::access_denied("alice");
    let packet = err.to_packet(2).expect("encode");
    assert_eq!(packet.sequence_id, 2);
    assert_eq!(packet.payload[0], 0xff);
    assert_eq!(&packet.payload[1..3], &1045u16.to_le_bytes());
    assert_eq!(packet.payload[3], b'#');
    assert_eq!(&packet.payload[4..9], b"28000");
    assert_eq!(&packet.payload[9..], b"Access denied for user 'alice'");
}

#[test]
fn from_error_maps_unsupported_to_not_supported_yet() {
    let err = ErrPacket::from_error(&Error::Unsupported("foo"));
    assert_eq!(err.error_code, 1235);
    assert_eq!(&err.sql_state, b"42000");
}

#[test]
fn from_error_maps_parse_to_syntax_error() {
    let err = ErrPacket::from_error(&Error::Parse("bad token".to_string()));
    assert_eq!(err.error_code, 1064);
    assert_eq!(&err.sql_state, b"42000");
    assert!(err.message.contains("bad token"));
}

#[test]
fn auth_more_data_fast_auth_success_layout() {
    let packet = AuthMoreData::fast_auth_success()
        .to_packet(2)
        .expect("encode");
    assert_eq!(packet.sequence_id, 2);
    // Header 0x01, then the fast-auth-success marker 0x03.
    assert_eq!(packet.payload, vec![0x01, CACHING_SHA2_FAST_AUTH_SUCCESS]);
}
