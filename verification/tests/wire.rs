use quorum_node::codec::{decode_sync_msg, decode_wrapper_msg, encode_sync_msg, encode_wrapper_msg};
use quorum_node::msg::{Msg, ProtMsg, WrapperMsg};
use quorum_node::sync::{SyncMsg, SyncState};
use quorum_node::traits::WireReady;

fn key() -> Vec<u8> {
    vec![7u8; 32]
}

#[test]
fn test_codec() {
    let payload = ProtMsg::Prepare(Msg { content: vec![1, 2, 3], origin: 2 });
    let w = WrapperMsg::new(payload, 1, key().as_slice());
    let bytes = w.to_bytes();
    let back = WrapperMsg::from_bytes(bytes.as_slice());
    assert_eq!(back, w);
}

#[test]
fn wrapper_round_trip_all_variants() {
    let variants = vec![
        ProtMsg::Init(42),
        ProtMsg::Prepare(Msg { content: vec![], origin: 0 }),
        ProtMsg::Echo(Msg { content: vec![u64::MAX, 0, 17], origin: 3 }),
        ProtMsg::Ping(Msg { content: vec![5], origin: 1 }, 2),
    ];
    for payload in variants {
        let w = WrapperMsg::new(payload, 3, key().as_slice());
        let bytes = encode_wrapper_msg(&w);
        let back = decode_wrapper_msg(bytes.as_slice()).expect("round trip must succeed");
        assert_eq!(back, w);
    }
}

#[test]
fn sync_round_trip() {
    let m = SyncMsg { sender: 4, state: SyncState::COMPLETED, value: String::from("2.5") };
    let bytes = encode_sync_msg(&m);
    let back = decode_sync_msg(bytes.as_slice()).expect("round trip must succeed");
    assert_eq!(back, m);
}

#[test]
fn sync_round_trip_unicode_value() {
    let m = SyncMsg {
        sender: 0,
        state: SyncState::STARTED,
        value: String::from("héλλο ✓ 🎉"),
    };
    let bytes = encode_sync_msg(&m);
    let back = decode_sync_msg(bytes.as_slice()).expect("round trip must succeed");
    assert_eq!(back.value, m.value);
}

#[test]
fn sync_round_trip_empty_value() {
    let m = SyncMsg { sender: 2, state: SyncState::ALIVE, value: String::new() };
    let bytes = encode_sync_msg(&m);
    assert_eq!(decode_sync_msg(bytes.as_slice()), Some(m));
}

#[test]
fn wire_trait_round_trip_arc() {
    let w = WrapperMsg::new(ProtMsg::Init(5), 2, key().as_slice());
    let a = std::sync::Arc::new(w.clone());
    let bytes = a.to_bytes();
    let back: std::sync::Arc<WrapperMsg> = std::sync::Arc::from_bytes(bytes.as_slice());
    assert_eq!(*back, w);
    assert_eq!(*a.clone().init(), w);
}

#[test]
fn wire_trait_round_trip_sync() {
    let m = SyncMsg { sender: 1, state: SyncState::STOP, value: String::from("x") };
    let bytes = m.to_bytes();
    let back = SyncMsg::from_bytes(bytes.as_slice());
    assert_eq!(back, m);
    assert_eq!(m.clone().init(), m);
}

#[test]
fn decode_rejects_truncation() {
    let w = WrapperMsg::new(ProtMsg::Init(9), 0, key().as_slice());
    let bytes = encode_wrapper_msg(&w);
    for cut in 0..bytes.len() {
        assert_eq!(decode_wrapper_msg(&bytes[..cut]), None);
    }
}

#[test]
fn decode_rejects_trailing_bytes() {
    let w = WrapperMsg::new(ProtMsg::Init(9), 0, key().as_slice());
    let mut bytes = encode_wrapper_msg(&w);
    bytes.push(0);
    assert_eq!(decode_wrapper_msg(bytes.as_slice()), None);
}

#[test]
fn decode_rejects_unknown_variant_tag() {
    // a variant tag past the defined ones
    let mut bytes = vec![9, 0, 0, 0];
    bytes.extend_from_slice(&[0u8; 48]);
    assert_eq!(decode_wrapper_msg(bytes.as_slice()), None);

    let mut sync_bytes = vec![0u8; 8];
    sync_bytes.extend_from_slice(&[6, 0, 0, 0]);
    sync_bytes.extend_from_slice(&[0u8; 8]);
    assert_eq!(decode_sync_msg(sync_bytes.as_slice()), None);
}

#[test]
fn decode_rejects_invalid_scalar_value() {
    // a COMPLETED message whose one character is a surrogate codepoint
    let mut bytes = vec![0u8; 8];
    bytes.extend_from_slice(&[3, 0, 0, 0]);
    bytes.extend_from_slice(&[1, 0, 0, 0, 0, 0, 0, 0]);
    bytes.extend_from_slice(&[0x00, 0xd8, 0x00, 0x00]);
    assert_eq!(decode_sync_msg(bytes.as_slice()), None);
}
