use mysql_rust::auth::sha1::digest;

fn hex(bytes: &[u8]) -> String {
    bytes.iter().map(|b| format!("{b:02x}")).collect()
}

#[test]
fn empty_input() {
    assert_eq!(
        hex(&digest(b"")),
        "da39a3ee5e6b4b0d3255bfef95601890afd80709"
    );
}

#[test]
fn short_input() {
    assert_eq!(
        hex(&digest(b"abc")),
        "a9993e364706816aba3e25717850c26c9cd0d89d"
    );
}

/// The standard NIST two-block test vector (56 bytes forces padding to
/// spill into a second 64-byte block), exercising the multi-block path.
#[test]
fn two_block_input() {
    assert_eq!(
        hex(&digest(
            b"abcdbcdecdefdefgefghfghighijhijkijkljklmklmnlmnomnopnopq"
        )),
        "84983e441c3bd26ebaae4aa1f95129e5e54670f1"
    );
}
