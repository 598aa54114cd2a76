use mysql_rust::auth::mix::{constant_time_eq, xor_bytes};
use mysql_rust::auth::sha256::digest;

fn hex(bytes: &[u8]) -> String {
    bytes.iter().map(|b| format!("{b:02x}")).collect()
}

#[test]
fn sha256_of_nothing() {
    assert_eq!(
        hex(&digest(b"")),
        "e3b0c44298fc1c149afbf4c8996fb92427ae41e4649b934ca495991b7852b855"
    );
}

#[test]
fn sha256_of_one_block() {
    assert_eq!(
        hex(&digest(b"abc")),
        "ba7816bf8f01cfea414140de5dae2223b00361a396177a9cb410ff61f20015ad"
    );
}

#[test]
fn sha256_of_two_blocks() {
    assert_eq!(
        hex(&digest(b"abcdbcdecdefdefgefghfghighijhijkijkljklmklmnlmnomnopnopq")),
        "248d6a61d20638b8e5c026930c3e6039a33ce45964ff2167f6ecedd419db06c1"
    );
}

#[test]
fn bytes_are_mixed_and_compared_as_a_whole() {
    assert_eq!(xor_bytes(&[0xf0, 0x0f], &[0xff, 0xff]), vec![0x0f, 0xf0]);
    assert!(constant_time_eq(b"same", b"same"));
    assert!(!constant_time_eq(b"same", b"sane"));
    assert!(!constant_time_eq(b"same", b"same!"));
}
