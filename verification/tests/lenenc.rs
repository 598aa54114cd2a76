use mysql_rust::protocol::lenenc::{read_lenenc_int, write_lenenc_int, write_lenenc_str};

#[test]
fn single_byte_values() {
    for v in [0u8, 1, 127, 250] {
        let (value, consumed) = read_lenenc_int(&[v]).unwrap();
        assert_eq!(value, v as u64);
        assert_eq!(consumed, 1);
    }
}

#[test]
fn two_byte_prefix() {
    let (value, consumed) = read_lenenc_int(&[0xfc, 0x2c, 0x01]).unwrap();
    assert_eq!(value, 300);
    assert_eq!(consumed, 3);
}

#[test]
fn three_byte_prefix() {
    let (value, consumed) = read_lenenc_int(&[0xfd, 0x00, 0x00, 0x01]).unwrap();
    assert_eq!(value, 65536);
    assert_eq!(consumed, 4);
}

#[test]
fn eight_byte_prefix() {
    let (value, consumed) = read_lenenc_int(&[0xfe, 1, 0, 0, 0, 0, 0, 0, 0]).unwrap();
    assert_eq!(value, 1);
    assert_eq!(consumed, 9);
}

#[test]
fn rejects_null_marker() {
    assert!(read_lenenc_int(&[0xfb]).is_err());
}

#[test]
fn rejects_error_marker() {
    assert!(read_lenenc_int(&[0xff]).is_err());
}

#[test]
fn rejects_empty_buffer() {
    assert!(read_lenenc_int(&[]).is_err());
}

#[test]
fn rejects_truncated_multibyte() {
    assert!(read_lenenc_int(&[0xfc, 0x01]).is_err());
    assert!(read_lenenc_int(&[0xfd, 0x01, 0x02]).is_err());
    assert!(read_lenenc_int(&[0xfe, 1, 2, 3, 4, 5, 6, 7]).is_err());
}

#[test]
fn write_matches_boundary_encodings() {
    assert_eq!(write_lenenc_int(0), vec![0]);
    assert_eq!(write_lenenc_int(250), vec![250]);
    assert_eq!(write_lenenc_int(251), vec![0xfc, 251, 0]);
    assert_eq!(write_lenenc_int(0xFFFF), vec![0xfc, 0xff, 0xff]);
    assert_eq!(write_lenenc_int(0x1_0000), vec![0xfd, 0x00, 0x00, 0x01]);
    assert_eq!(write_lenenc_int(0xFF_FFFF), vec![0xfd, 0xff, 0xff, 0xff]);
    assert_eq!(
        write_lenenc_int(0x100_0000),
        vec![0xfe, 0, 0, 0, 1, 0, 0, 0, 0]
    );
}

#[test]
fn write_then_read_round_trips() {
    for value in [
        0u64,
        1,
        250,
        251,
        300,
        0xFFFF,
        0x1_0000,
        0xFF_FFFF,
        0x100_0000,
        u64::MAX,
    ] {
        let encoded = write_lenenc_int(value);
        let (decoded, consumed) = read_lenenc_int(&encoded).unwrap();
        assert_eq!(decoded, value);
        assert_eq!(consumed, encoded.len());
    }
}

#[test]
fn write_lenenc_str_prefixes_with_length() {
    assert_eq!(write_lenenc_str(""), vec![0]);
    assert_eq!(write_lenenc_str("hi"), vec![2, b'h', b'i']);
}

#[test]
fn write_lenenc_str_handles_long_strings_with_multibyte_prefix() {
    let s = "a".repeat(300);
    let encoded = write_lenenc_str(&s);
    assert_eq!(&encoded[..3], &[0xfc, 0x2c, 0x01]); // lenenc-int 300
    assert_eq!(&encoded[3..], s.as_bytes());
}
