use mysql_rust::protocol::capabilities::{
    CLIENT_CONNECT_WITH_DB, CLIENT_PLUGIN_AUTH, CLIENT_PLUGIN_AUTH_LENENC_CLIENT_DATA,
    CLIENT_PROTOCOL_41, CLIENT_SECURE_CONNECTION,
};
use mysql_rust::protocol::handshake::{bytes_of_words, generate_scramble, scramble_of};
use mysql_rust::protocol::{AuthSwitchRequest, Handshake, HandshakeResponse41, SCRAMBLE_LEN};
use mysql_rust::Error;

#[test]
fn to_packet_encodes_known_layout() {
    let handshake = Handshake {
        protocol_version: 10,
        server_version: "8.0.0-test".to_string(),
        connection_id: 42,
        auth_plugin_data: [
            1, 2, 3, 4, 5, 6, 7, 8, 9, 10, 11, 12, 13, 14, 15, 16, 17, 18, 19, 20,
        ],
        capability_flags: CLIENT_PROTOCOL_41 | CLIENT_PLUGIN_AUTH | CLIENT_SECURE_CONNECTION,
        character_set: 45,
        status_flags: 0x0002,
        auth_plugin_name: "mysql_native_password".to_string(),
    };

    let packet = handshake.to_packet(0).expect("encode");
    assert_eq!(packet.sequence_id, 0);

    let payload = &packet.payload;
    let mut pos = 0;

    assert_eq!(payload[pos], 10);
    pos += 1;

    let version_end = payload[pos..].iter().position(|&b| b == 0).unwrap() + pos;
    assert_eq!(&payload[pos..version_end], b"8.0.0-test");
    pos = version_end + 1;

    assert_eq!(&payload[pos..pos + 4], &42u32.to_le_bytes());
    pos += 4;

    assert_eq!(&payload[pos..pos + 8], &[1, 2, 3, 4, 5, 6, 7, 8]);
    pos += 8;

    assert_eq!(payload[pos], 0); // filler
    pos += 1;

    let expected_caps = CLIENT_PROTOCOL_41 | CLIENT_PLUGIN_AUTH | CLIENT_SECURE_CONNECTION;
    assert_eq!(
        &payload[pos..pos + 2],
        &((expected_caps & 0xFFFF) as u16).to_le_bytes()
    );
    pos += 2;

    assert_eq!(payload[pos], 45);
    pos += 1;

    assert_eq!(&payload[pos..pos + 2], &0x0002u16.to_le_bytes());
    pos += 2;

    assert_eq!(
        &payload[pos..pos + 2],
        &(((expected_caps >> 16) & 0xFFFF) as u16).to_le_bytes()
    );
    pos += 2;

    assert_eq!(payload[pos], 21); // scramble len: 20 + NUL
    pos += 1;

    assert_eq!(&payload[pos..pos + 10], &[0u8; 10]);
    pos += 10;

    assert_eq!(
        &payload[pos..pos + 12],
        &[9, 10, 11, 12, 13, 14, 15, 16, 17, 18, 19, 20]
    );
    pos += 12;
    assert_eq!(payload[pos], 0); // NUL terminating part 2
    pos += 1;

    let name_end = payload[pos..].iter().position(|&b| b == 0).unwrap() + pos;
    assert_eq!(&payload[pos..name_end], b"mysql_native_password");
    pos = name_end + 1;

    assert_eq!(pos, payload.len());
}

#[test]
fn to_packet_omits_plugin_data_when_capabilities_disabled() {
    let handshake = Handshake {
        protocol_version: 10,
        server_version: "x".to_string(),
        connection_id: 1,
        auth_plugin_data: [0u8; SCRAMBLE_LEN],
        capability_flags: CLIENT_PROTOCOL_41, // no PLUGIN_AUTH, no SECURE_CONNECTION
        character_set: 0,
        status_flags: 0,
        auth_plugin_name: "unused".to_string(),
    };

    let packet = handshake.to_packet(0).expect("encode");
    // "x\0" + 4 (conn id) + 8 (part1) + 1 (filler) + 2 (caps lo) + 1
    // (charset) + 2 (status) + 2 (caps hi) + 1 (auth len = 0) + 10
    // (reserved) = 33 bytes, no part-2 and no plugin name.
    assert_eq!(
        packet.payload.len(),
        1 + 2 + 4 + 8 + 1 + 2 + 1 + 2 + 2 + 1 + 10
    );
    assert_eq!(*packet.payload.last().unwrap(), 0); // last reserved byte
}

#[test]
fn auth_switch_request_layout() {
    let plugin: &str = "mysql_native_password";
    let switch = AuthSwitchRequest {
        plugin_name: plugin.to_string(),
        auth_plugin_data: vec![9u8; SCRAMBLE_LEN],
    };
    let packet = switch.to_packet(2).expect("encode");
    assert_eq!(packet.sequence_id, 2);
    assert_eq!(packet.payload[0], 0xfe);
    assert_eq!(&packet.payload[1..1 + plugin.len()], plugin.as_bytes());
    let name_end = 1 + plugin.len();
    assert_eq!(packet.payload[name_end], 0); // NUL terminator
    assert_eq!(&packet.payload[name_end + 1..], &[9u8; SCRAMBLE_LEN][..]);
}

#[test]
fn generate_scramble_is_printable_and_varies() {
    let a = generate_scramble();
    let b = generate_scramble();
    for byte in a.iter().chain(b.iter()) {
        assert!((33..=126).contains(byte), "byte {byte} not printable ASCII");
    }
    assert_ne!(a, b, "two scrambles should not collide");
}

#[test]
fn drawn_words_become_a_scramble() {
    let bytes = bytes_of_words(0x0807_0605_0403_0201, u64::MAX, 0xAABB_CCDD_8000_0003);
    assert_eq!(
        bytes,
        [
            1, 2, 3, 4, 5, 6, 7, 8, 255, 255, 255, 255, 255, 255, 255, 255, 3, 0, 0, 128,
        ]
    );
    let scramble = scramble_of(&bytes);
    assert_eq!(scramble[0], 33);
    assert_eq!(scramble[8], 126);
    assert_eq!(scramble[19], 80);
}

fn secure_connection_caps() -> u32 {
    CLIENT_PROTOCOL_41 | CLIENT_SECURE_CONNECTION
}

#[test]
fn parse_lenenc_auth_response_and_optional_fields() {
    let mut payload = Vec::new();
    let caps = CLIENT_PROTOCOL_41
        | CLIENT_PLUGIN_AUTH
        | CLIENT_PLUGIN_AUTH_LENENC_CLIENT_DATA
        | CLIENT_CONNECT_WITH_DB;
    payload.extend_from_slice(&caps.to_le_bytes());
    payload.extend_from_slice(&16_777_216u32.to_le_bytes());
    payload.push(45);
    payload.extend_from_slice(&[0u8; 23]);
    payload.extend_from_slice(b"root\0");
    payload.push(4); // lenenc-int single-byte form: length 4
    payload.extend_from_slice(&[0xAA, 0xBB, 0xCC, 0xDD]);
    payload.extend_from_slice(b"mydb\0");
    payload.extend_from_slice(b"mysql_native_password\0");

    let parsed = HandshakeResponse41::parse(&payload).expect("parse");
    assert_eq!(parsed.capability_flags, caps);
    assert_eq!(parsed.max_packet_size, 16_777_216);
    assert_eq!(parsed.character_set, 45);
    assert_eq!(parsed.username, "root");
    assert_eq!(parsed.auth_response, vec![0xAA, 0xBB, 0xCC, 0xDD]);
    assert_eq!(parsed.database.as_deref(), Some("mydb"));
    assert_eq!(
        parsed.auth_plugin_name.as_deref(),
        Some("mysql_native_password")
    );
}

#[test]
fn parse_secure_connection_auth_response_without_optional_fields() {
    let mut payload = Vec::new();
    let caps = secure_connection_caps();
    payload.extend_from_slice(&caps.to_le_bytes());
    payload.extend_from_slice(&1024u32.to_le_bytes());
    payload.push(8);
    payload.extend_from_slice(&[0u8; 23]);
    payload.extend_from_slice(b"alice\0");
    payload.push(3);
    payload.extend_from_slice(&[1, 2, 3]);

    let parsed = HandshakeResponse41::parse(&payload).expect("parse");
    assert_eq!(parsed.username, "alice");
    assert_eq!(parsed.auth_response, vec![1, 2, 3]);
    assert_eq!(parsed.database, None);
    assert_eq!(parsed.auth_plugin_name, None);
}

#[test]
fn parse_rejects_too_short_payload() {
    let payload = vec![0u8; 10];
    assert!(matches!(
        HandshakeResponse41::parse(&payload),
        Err(Error::Protocol(_))
    ));
}

#[test]
fn parse_rejects_missing_protocol_41() {
    let payload = vec![0u8; 32]; // capability_flags = 0 -> PROTOCOL_41 bit unset
    assert!(matches!(
        HandshakeResponse41::parse(&payload),
        Err(Error::Protocol(_))
    ));
}

#[test]
fn parse_rejects_truncated_auth_response() {
    let mut payload = Vec::new();
    let caps = secure_connection_caps();
    payload.extend_from_slice(&caps.to_le_bytes());
    payload.extend_from_slice(&0u32.to_le_bytes());
    payload.push(45);
    payload.extend_from_slice(&[0u8; 23]);
    payload.extend_from_slice(b"root\0");
    payload.push(20); // claims 20 bytes...
    payload.extend_from_slice(&[0xAA, 0xBB]); // ...but only provides 2

    assert!(matches!(
        HandshakeResponse41::parse(&payload),
        Err(Error::Protocol(_))
    ));
}

#[test]
fn parse_rejects_non_utf8_username() {
    let mut payload = Vec::new();
    let caps = secure_connection_caps();
    payload.extend_from_slice(&caps.to_le_bytes());
    payload.extend_from_slice(&0u32.to_le_bytes());
    payload.push(45);
    payload.extend_from_slice(&[0u8; 23]);
    payload.extend_from_slice(&[0xFF, 0xFE, 0x00]); // invalid UTF-8, NUL-terminated

    assert!(matches!(
        HandshakeResponse41::parse(&payload),
        Err(Error::Protocol(_))
    ));
}
