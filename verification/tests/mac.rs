use quorum_node::crypto::{do_hash, do_hash_merkle, do_mac, verf_mac};

#[test]
fn mac_accepts_own_tag() {
    let bytes = b"a protocol message";
    let key = b"a shared secret";
    let tag = do_mac(bytes, key);
    assert!(verf_mac(bytes, key, &tag));
}

#[test]
fn mac_rejects_tampered_tag() {
    let bytes = b"a protocol message";
    let key = b"a shared secret";
    let mut tag = do_mac(bytes, key);
    tag[0] ^= 1;
    assert!(!verf_mac(bytes, key, &tag));
}

#[test]
fn mac_rejects_other_key() {
    let bytes = b"a protocol message";
    let tag = do_mac(bytes, b"one key");
    assert!(!verf_mac(bytes, b"another key", &tag));
}

#[test]
fn mac_rejects_other_message() {
    let key = b"a shared secret";
    let tag = do_mac(b"message one", key);
    assert!(!verf_mac(b"message two", key, &tag));
}

#[test]
fn mac_rejects_short_tag() {
    let bytes = b"a protocol message";
    let key = b"a shared secret";
    let tag = do_mac(bytes, key);
    assert!(!verf_mac(bytes, key, &tag[..16]));
}

#[test]
fn mac_is_not_the_message() {
    // the tag is a digest of the message, not the message handed back
    let bytes = [0xabu8; 32];
    let tag = do_mac(&bytes, b"key");
    assert_ne!(tag, bytes);
}

#[test]
fn hash_known_answer() {
    // SHA-256 of the empty byte string
    let h = do_hash(b"");
    let expected = [
        0xe3, 0xb0, 0xc4, 0x42, 0x98, 0xfc, 0x1c, 0x14, 0x9a, 0xfb, 0xf4, 0xc8, 0x99, 0x6f,
        0xb9, 0x24, 0x27, 0xae, 0x41, 0xe4, 0x64, 0x9b, 0x93, 0x4c, 0xa4, 0x95, 0x99, 0x1b,
        0x78, 0x52, 0xb8, 0x55,
    ];
    assert_eq!(h, expected);
}

#[test]
fn hash_is_not_the_message() {
    let bytes = [0x5au8; 32];
    assert_ne!(do_hash(&bytes), bytes);
}

#[test]
fn merkle_hash_prefixes_a_zero_byte() {
    let bytes = b"leaf bytes";
    let mut prefixed = vec![0u8];
    prefixed.extend_from_slice(bytes);
    assert_eq!(do_hash_merkle(bytes), do_hash(&prefixed));
    assert_ne!(do_hash_merkle(bytes), do_hash(bytes));
}

#[test]
fn mac_known_answer() {
    // HMAC-SHA-256 with an empty key over an empty message
    let tag = do_mac(b"", b"");
    let expected = [
        0xb6, 0x13, 0x67, 0x9a, 0x08, 0x14, 0xd9, 0xec, 0x77, 0x2f, 0x95, 0xd7, 0x78, 0xc3,
        0x5f, 0xc5, 0xff, 0x16, 0x97, 0xc4, 0x93, 0x71, 0x56, 0x53, 0xc6, 0xc7, 0x12, 0x14,
        0x42, 0x92, 0xc5, 0xad,
    ];
    assert_eq!(tag, expected);
}
