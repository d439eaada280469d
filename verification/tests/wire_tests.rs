use radicle_node::ids::{HostAddr, NodeId, ResourceId, Signature};
use radicle_node::wire::{decode, encode, signing_bytes, Decoded, DecodeError, Message};

#[test]
fn ping_frame_bytes_are_exact() {
    let m = Message::Ping { nonce: 0x0102030405060708 };
    let bytes = encode(&m);
    assert_eq!(bytes, vec![0, 0, 0, 9, 4, 1, 2, 3, 4, 5, 6, 7, 8]);
}

#[test]
fn handshake_frame_length_and_prefix() {
    let m = Message::Handshake {
        node: NodeId(0xAABBCCDDEEFF0011),
        version: 1,
        timestamp: 42,
        signature: Signature(7),
    };
    let bytes = encode(&m);
    assert_eq!(bytes.len(), 31);
    assert_eq!(&bytes[0..5], &[0, 0, 0, 27, 1]);
    assert_eq!(&bytes[5..13], &[0xAA, 0xBB, 0xCC, 0xDD, 0xEE, 0xFF, 0x00, 0x11]);
}

fn roundtrip(m: Message) {
    let mut bytes = encode(&m);
    let framed = bytes.len();
    // Whatever follows the frame must not disturb it.
    bytes.push(0xFF);
    bytes.push(0x00);
    match decode(&bytes) {
        Decoded::Frame { msg, consumed } => {
            assert_eq!(msg, m);
            assert_eq!(consumed, framed);
        },
        other => panic!("expected a frame, got {:?}", other),
    }
}

#[test]
fn every_message_kind_round_trips() {
    roundtrip(Message::Handshake {
        node: NodeId(11),
        version: 1,
        timestamp: 99,
        signature: Signature(1234567),
    });
    roundtrip(Message::RoutingAnnouncement {
        resource: ResourceId(u64::MAX),
        provider: NodeId(0),
        timestamp: 1,
        signature: Signature(u64::MAX - 1),
    });
    roundtrip(Message::AddressAnnouncement {
        node: NodeId(5),
        addr: HostAddr { ip: 0x7F000001, port: 8776 },
        timestamp: 1000,
        signature: Signature(3),
    });
    roundtrip(Message::Ping { nonce: 0 });
    roundtrip(Message::Pong { nonce: u64::MAX });
}

#[test]
fn a_partial_frame_is_incomplete_not_an_error() {
    let m = Message::Ping { nonce: 77 };
    let bytes = encode(&m);
    for cut in 0..bytes.len() {
        let prefix: Vec<u8> = bytes[..cut].to_vec();
        assert_eq!(decode(&prefix), Decoded::Incomplete, "cut at {}", cut);
    }
}

#[test]
fn an_oversized_length_prefix_is_refused() {
    let bytes = vec![0, 0, 1, 0, 4, 0, 0];
    assert_eq!(decode(&bytes), Decoded::Failed { err: DecodeError::TooLong });
}

#[test]
fn an_unknown_tag_is_malformed() {
    let bytes = vec![0, 0, 0, 9, 99, 0, 0, 0, 0, 0, 0, 0, 0];
    assert_eq!(decode(&bytes), Decoded::Failed { err: DecodeError::Malformed });
}

#[test]
fn a_size_wrong_for_its_tag_is_malformed() {
    // Tag 4 (ping) must carry exactly eight payload bytes after the tag.
    let bytes = vec![0, 0, 0, 10, 4, 0, 0, 0, 0, 0, 0, 0, 0, 0];
    assert_eq!(decode(&bytes), Decoded::Failed { err: DecodeError::Malformed });
}

#[test]
fn an_empty_payload_is_malformed() {
    let bytes = vec![0, 0, 0, 0];
    assert_eq!(decode(&bytes), Decoded::Failed { err: DecodeError::Malformed });
}

#[test]
fn signing_bytes_zero_the_signature_field() {
    let m = Message::RoutingAnnouncement {
        resource: ResourceId(1),
        provider: NodeId(2),
        timestamp: 3,
        signature: Signature(0xDEAD),
    };
    let zeroed = Message::RoutingAnnouncement {
        resource: ResourceId(1),
        provider: NodeId(2),
        timestamp: 3,
        signature: Signature(0),
    };
    assert_eq!(signing_bytes(&m), encode(&zeroed));
    assert_ne!(signing_bytes(&m), encode(&m));
}
