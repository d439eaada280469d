//! The wire codec.
//!
//! A frame is a four-byte big-endian payload length followed by the payload:
//! a one-byte tag and the message fields in fixed-width big-endian form. The
//! codec turns a message into its frame and an incoming byte buffer into a
//! message plus the number of bytes consumed; a buffer that does not yet hold
//! a whole frame yields `Incomplete`, which asks the caller to buffer more
//! bytes and is never an error. Decoding and encoding are exact inverses
//! ([`lemma_decode_encode`]).
//!
//! Messages that mutate routing or address state carry a signature over the
//! frame with the signature field zeroed ([`signing_bytes`]); producing and
//! checking it is the edge's capability, and the service refuses to mutate
//! state on a frame whose check failed.

use vstd::prelude::*;
use crate::ids::{HostAddr, NodeId, ResourceId, Signature};

verus! {

/// Payload tag of a handshake frame.
pub const TAG_HANDSHAKE: u8 = 1;

/// Payload tag of a routing announcement frame.
pub const TAG_ROUTING: u8 = 2;

/// Payload tag of an address announcement frame.
pub const TAG_ADDRESS: u8 = 3;

/// Payload tag of a ping frame.
pub const TAG_PING: u8 = 4;

/// Payload tag of a pong frame.
pub const TAG_PONG: u8 = 5;

/// The largest payload any frame may carry; a longer claimed length is
/// malformed, so a corrupt length prefix cannot make the transport buffer
/// without bound.
pub const MAX_PAYLOAD: u32 = 64;

/// A message exchanged with a connected peer.
#[derive(PartialEq, Eq, Structural, Clone, Copy, Debug)]
pub enum Message {
    /// Version and identity greeting; opens every connection.
    Handshake { node: NodeId, version: u16, timestamp: u64, signature: Signature },
    /// Gossip: `provider` hosts `resource`, as of `timestamp`.
    RoutingAnnouncement {
        resource: ResourceId,
        provider: NodeId,
        timestamp: u64,
        signature: Signature,
    },
    /// Gossip: `node` can be dialed at `addr`, as of `timestamp`.
    AddressAnnouncement {
        node: NodeId,
        addr: HostAddr,
        timestamp: u64,
        signature: Signature,
    },
    /// Keepalive probe.
    Ping { nonce: u64 },
    /// Keepalive reply.
    Pong { nonce: u64 },
}

/// Why a buffer failed to decode.
#[derive(PartialEq, Eq, Structural, Clone, Copy, Debug)]
pub enum DecodeError {
    /// The length prefix claims more than [`MAX_PAYLOAD`] bytes.
    TooLong,
    /// The payload's tag is unknown or its size does not fit its tag.
    Malformed,
}

/// Outcome of decoding a buffer.
#[derive(PartialEq, Eq, Structural, Clone, Copy, Debug)]
pub enum Decoded {
    /// A whole frame: the message and the bytes it occupied.
    Frame { msg: Message, consumed: usize },
    /// The buffer ends before the frame does; feed more bytes and retry.
    Incomplete,
    /// The buffer cannot hold a frame; the connection should be dropped.
    Failed { err: DecodeError },
}

/// The big-endian bytes of a message's frame: length prefix, tag, fields.
pub open spec fn encode_spec(m: Message) -> Seq<u8> {
    match m {
        Message::Handshake { node, version, timestamp, signature } => seq![
            0u8, 0u8, 0u8, 27u8, TAG_HANDSHAKE,
            (node.0 >> 56) as u8, (node.0 >> 48) as u8, (node.0 >> 40) as u8, (node.0 >> 32) as u8,
            (node.0 >> 24) as u8, (node.0 >> 16) as u8, (node.0 >> 8) as u8, node.0 as u8,
            (version >> 8) as u8, version as u8,
            (timestamp >> 56) as u8, (timestamp >> 48) as u8, (timestamp >> 40) as u8,
            (timestamp >> 32) as u8, (timestamp >> 24) as u8, (timestamp >> 16) as u8,
            (timestamp >> 8) as u8, timestamp as u8,
            (signature.0 >> 56) as u8, (signature.0 >> 48) as u8, (signature.0 >> 40) as u8,
            (signature.0 >> 32) as u8, (signature.0 >> 24) as u8, (signature.0 >> 16) as u8,
            (signature.0 >> 8) as u8, signature.0 as u8,
        ],
        Message::RoutingAnnouncement { resource, provider, timestamp, signature } => seq![
            0u8, 0u8, 0u8, 33u8, TAG_ROUTING,
            (resource.0 >> 56) as u8, (resource.0 >> 48) as u8, (resource.0 >> 40) as u8,
            (resource.0 >> 32) as u8, (resource.0 >> 24) as u8, (resource.0 >> 16) as u8,
            (resource.0 >> 8) as u8, resource.0 as u8,
            (provider.0 >> 56) as u8, (provider.0 >> 48) as u8, (provider.0 >> 40) as u8,
            (provider.0 >> 32) as u8, (provider.0 >> 24) as u8, (provider.0 >> 16) as u8,
            (provider.0 >> 8) as u8, provider.0 as u8,
            (timestamp >> 56) as u8, (timestamp >> 48) as u8, (timestamp >> 40) as u8,
            (timestamp >> 32) as u8, (timestamp >> 24) as u8, (timestamp >> 16) as u8,
            (timestamp >> 8) as u8, timestamp as u8,
            (signature.0 >> 56) as u8, (signature.0 >> 48) as u8, (signature.0 >> 40) as u8,
            (signature.0 >> 32) as u8, (signature.0 >> 24) as u8, (signature.0 >> 16) as u8,
            (signature.0 >> 8) as u8, signature.0 as u8,
        ],
        Message::AddressAnnouncement { node, addr, timestamp, signature } => seq![
            0u8, 0u8, 0u8, 31u8, TAG_ADDRESS,
            (node.0 >> 56) as u8, (node.0 >> 48) as u8, (node.0 >> 40) as u8, (node.0 >> 32) as u8,
            (node.0 >> 24) as u8, (node.0 >> 16) as u8, (node.0 >> 8) as u8, node.0 as u8,
            (addr.ip >> 24) as u8, (addr.ip >> 16) as u8, (addr.ip >> 8) as u8, addr.ip as u8,
            (addr.port >> 8) as u8, addr.port as u8,
            (timestamp >> 56) as u8, (timestamp >> 48) as u8, (timestamp >> 40) as u8,
            (timestamp >> 32) as u8, (timestamp >> 24) as u8, (timestamp >> 16) as u8,
            (timestamp >> 8) as u8, timestamp as u8,
            (signature.0 >> 56) as u8, (signature.0 >> 48) as u8, (signature.0 >> 40) as u8,
            (signature.0 >> 32) as u8, (signature.0 >> 24) as u8, (signature.0 >> 16) as u8,
            (signature.0 >> 8) as u8, signature.0 as u8,
        ],
        Message::Ping { nonce } => seq![
            0u8, 0u8, 0u8, 9u8, TAG_PING,
            (nonce >> 56) as u8, (nonce >> 48) as u8, (nonce >> 40) as u8, (nonce >> 32) as u8,
            (nonce >> 24) as u8, (nonce >> 16) as u8, (nonce >> 8) as u8, nonce as u8,
        ],
        Message::Pong { nonce } => seq![
            0u8, 0u8, 0u8, 9u8, TAG_PONG,
            (nonce >> 56) as u8, (nonce >> 48) as u8, (nonce >> 40) as u8, (nonce >> 32) as u8,
            (nonce >> 24) as u8, (nonce >> 16) as u8, (nonce >> 8) as u8, nonce as u8,
        ],
    }
}

/// The big-endian 64-bit value of eight bytes.
pub open spec fn u64_of(
    b0: u8, b1: u8, b2: u8, b3: u8, b4: u8, b5: u8, b6: u8, b7: u8,
) -> u64 {
    ((b0 as u64) << 56) | ((b1 as u64) << 48) | ((b2 as u64) << 40) | ((b3 as u64) << 32) | ((
    b4 as u64) << 24) | ((b5 as u64) << 16) | ((b6 as u64) << 8) | (b7 as u64)
}

/// The big-endian 64-bit value read at `i`.
pub open spec fn u64_at(s: Seq<u8>, i: int) -> u64 {
    u64_of(s[i], s[i + 1], s[i + 2], s[i + 3], s[i + 4], s[i + 5], s[i + 6], s[i + 7])
}

/// The big-endian 32-bit value of four bytes.
pub open spec fn u32_of(b0: u8, b1: u8, b2: u8, b3: u8) -> u32 {
    ((b0 as u32) << 24) | ((b1 as u32) << 16) | ((b2 as u32) << 8) | (b3 as u32)
}

/// The big-endian 16-bit value of two bytes.
pub open spec fn u16_of(b0: u8, b1: u8) -> u16 {
    ((b0 as u16) << 8) | (b1 as u16)
}

/// The message a whole payload parses to, if any.
pub open spec fn parse_payload(p: Seq<u8>) -> Option<Message> {
    if p.len() < 1 {
        Option::None
    } else if p[0] == TAG_HANDSHAKE && p.len() == 27 {
        Some(
            Message::Handshake {
                node: NodeId(u64_at(p, 1)),
                version: u16_of(p[9], p[10]),
                timestamp: u64_at(p, 11),
                signature: Signature(u64_at(p, 19)),
            },
        )
    } else if p[0] == TAG_ROUTING && p.len() == 33 {
        Some(
            Message::RoutingAnnouncement {
                resource: ResourceId(u64_at(p, 1)),
                provider: NodeId(u64_at(p, 9)),
                timestamp: u64_at(p, 17),
                signature: Signature(u64_at(p, 25)),
            },
        )
    } else if p[0] == TAG_ADDRESS && p.len() == 31 {
        Some(
            Message::AddressAnnouncement {
                node: NodeId(u64_at(p, 1)),
                addr: HostAddr { ip: u32_of(p[9], p[10], p[11], p[12]), port: u16_of(p[13], p[14]) },
                timestamp: u64_at(p, 15),
                signature: Signature(u64_at(p, 23)),
            },
        )
    } else if p[0] == TAG_PING && p.len() == 9 {
        Some(Message::Ping { nonce: u64_at(p, 1) })
    } else if p[0] == TAG_PONG && p.len() == 9 {
        Some(Message::Pong { nonce: u64_at(p, 1) })
    } else {
        Option::None
    }
}

/// What decoding a buffer yields: a frame and its size, a request for more
/// bytes, or a malformed-input error.
pub open spec fn decode_spec(s: Seq<u8>) -> Decoded {
    if s.len() < 4 {
        Decoded::Incomplete
    } else {
        let len = u32_of(s[0], s[1], s[2], s[3]);
        if len > MAX_PAYLOAD {
            Decoded::Failed { err: DecodeError::TooLong }
        } else if s.len() < 4 + len {
            Decoded::Incomplete
        } else {
            match parse_payload(s.subrange(4, 4 + len as int)) {
                Some(m) => Decoded::Frame { msg: m, consumed: (4 + len) as usize },
                Option::None => Decoded::Failed { err: DecodeError::Malformed },
            }
        }
    }
}

/// `m` with its signature field zeroed: the form a frame's signature is
/// computed over.
pub open spec fn unsigned_of(m: Message) -> Message {
    match m {
        Message::Handshake { node, version, timestamp, signature } => Message::Handshake {
            node,
            version,
            timestamp,
            signature: Signature(0),
        },
        Message::RoutingAnnouncement { resource, provider, timestamp, signature } =>
            Message::RoutingAnnouncement {
            resource,
            provider,
            timestamp,
            signature: Signature(0),
        },
        Message::AddressAnnouncement { node, addr, timestamp, signature } =>
            Message::AddressAnnouncement {
            node,
            addr,
            timestamp,
            signature: Signature(0),
        },
        Message::Ping { nonce } => Message::Ping { nonce },
        Message::Pong { nonce } => Message::Pong { nonce },
    }
}

/// Append the big-endian bytes of `x`.
fn push_u64(out: &mut Vec<u8>, x: u64)
    ensures
        final(out)@ == old(out)@ + seq![
            (x >> 56) as u8, (x >> 48) as u8, (x >> 40) as u8, (x >> 32) as u8,
            (x >> 24) as u8, (x >> 16) as u8, (x >> 8) as u8, x as u8,
        ],
{
    out.push((x >> 56) as u8);
    out.push((x >> 48) as u8);
    out.push((x >> 40) as u8);
    out.push((x >> 32) as u8);
    out.push((x >> 24) as u8);
    out.push((x >> 16) as u8);
    out.push((x >> 8) as u8);
    out.push(x as u8);
    proof {
        assert(out@ =~= old(out)@ + seq![
            (x >> 56) as u8, (x >> 48) as u8, (x >> 40) as u8, (x >> 32) as u8,
            (x >> 24) as u8, (x >> 16) as u8, (x >> 8) as u8, x as u8,
        ]);
    }
}

/// The frame of `m`: length prefix, tag, fields, all big-endian.
pub fn encode(m: &Message) -> (out: Vec<u8>)
    ensures
        out@ == encode_spec(*m),
        out@.len() >= 9,
{
    let mut out: Vec<u8> = Vec::new();
    match *m {
        Message::Handshake { node, version, timestamp, signature } => {
            out.push(0u8);
            out.push(0u8);
            out.push(0u8);
            out.push(27u8);
            out.push(TAG_HANDSHAKE);
            push_u64(&mut out, node.0);
            out.push((version >> 8) as u8);
            out.push(version as u8);
            push_u64(&mut out, timestamp);
            push_u64(&mut out, signature.0);
            proof {
                assert(out@ =~= encode_spec(*m));
            }
        },
        Message::RoutingAnnouncement { resource, provider, timestamp, signature } => {
            out.push(0u8);
            out.push(0u8);
            out.push(0u8);
            out.push(33u8);
            out.push(TAG_ROUTING);
            push_u64(&mut out, resource.0);
            push_u64(&mut out, provider.0);
            push_u64(&mut out, timestamp);
            push_u64(&mut out, signature.0);
            proof {
                assert(out@ =~= encode_spec(*m));
            }
        },
        Message::AddressAnnouncement { node, addr, timestamp, signature } => {
            out.push(0u8);
            out.push(0u8);
            out.push(0u8);
            out.push(31u8);
            out.push(TAG_ADDRESS);
            push_u64(&mut out, node.0);
            out.push((addr.ip >> 24) as u8);
            out.push((addr.ip >> 16) as u8);
            out.push((addr.ip >> 8) as u8);
            out.push(addr.ip as u8);
            out.push((addr.port >> 8) as u8);
            out.push(addr.port as u8);
            push_u64(&mut out, timestamp);
            push_u64(&mut out, signature.0);
            proof {
                assert(out@ =~= encode_spec(*m));
            }
        },
        Message::Ping { nonce } => {
            out.push(0u8);
            out.push(0u8);
            out.push(0u8);
            out.push(9u8);
            out.push(TAG_PING);
            push_u64(&mut out, nonce);
            proof {
                assert(out@ =~= encode_spec(*m));
            }
        },
        Message::Pong { nonce } => {
            out.push(0u8);
            out.push(0u8);
            out.push(0u8);
            out.push(9u8);
            out.push(TAG_PONG);
            push_u64(&mut out, nonce);
            proof {
                assert(out@ =~= encode_spec(*m));
            }
        },
    }
    out
}

/// The bytes a frame's signature is computed over: the frame of `m` with the
/// signature field zeroed.
pub fn signing_bytes(m: &Message) -> (out: Vec<u8>)
    ensures
        out@ == encode_spec(unsigned_of(*m)),
{
    let unsigned = match *m {
        Message::Handshake { node, version, timestamp, signature: _ } => Message::Handshake {
            node,
            version,
            timestamp,
            signature: Signature(0),
        },
        Message::RoutingAnnouncement { resource, provider, timestamp, signature: _ } =>
            Message::RoutingAnnouncement {
            resource,
            provider,
            timestamp,
            signature: Signature(0),
        },
        Message::AddressAnnouncement { node, addr, timestamp, signature: _ } =>
            Message::AddressAnnouncement {
            node,
            addr,
            timestamp,
            signature: Signature(0),
        },
        Message::Ping { nonce } => Message::Ping { nonce },
        Message::Pong { nonce } => Message::Pong { nonce },
    };
    encode(&unsigned)
}

/// The big-endian 64-bit value read at `i`.
fn read_u64(buf: &Vec<u8>, i: usize) -> (x: u64)
    requires
        i + 8 <= buf@.len(),
    ensures
        x == u64_at(buf@, i as int),
{
    let n = buf.len();
    ((buf[i] as u64) << 56) | ((buf[i + 1] as u64) << 48) | ((buf[i + 2] as u64) << 40) | ((buf[i
        + 3] as u64) << 32) | ((buf[i + 4] as u64) << 24) | ((buf[i + 5] as u64) << 16) | ((buf[i
        + 6] as u64) << 8) | (buf[i + 7] as u64)
}

/// Decode the front of `buf`: a whole frame with its size, `Incomplete` when
/// the buffer ends before the frame does (feed more bytes and retry — never
/// an error), or the reason the buffer is malformed.
pub fn decode(buf: &Vec<u8>) -> (r: Decoded)
    ensures
        r == decode_spec(buf@),
{
    let n = buf.len();
    if n < 4 {
        return Decoded::Incomplete;
    }
    let len = ((buf[0] as u32) << 24) | ((buf[1] as u32) << 16) | ((buf[2] as u32) << 8) | (
    buf[3] as u32);
    if len > MAX_PAYLOAD {
        return Decoded::Failed { err: DecodeError::TooLong };
    }
    if n < 4 + len as usize {
        return Decoded::Incomplete;
    }
    let ghost p = buf@.subrange(4, 4 + len as int);
    proof {
        assert forall|k: int| 0 <= k < p.len() implies p[k] == buf@[4 + k] by {}
    }
    if len < 1 {
        return Decoded::Failed { err: DecodeError::Malformed };
    }
    let tag = buf[4];
    if tag == TAG_HANDSHAKE && len == 27 {
        let msg = Message::Handshake {
            node: NodeId(read_u64(buf, 5)),
            version: ((buf[13] as u16) << 8) | (buf[14] as u16),
            timestamp: read_u64(buf, 15),
            signature: Signature(read_u64(buf, 23)),
        };
        proof {
            assert(u64_at(p, 1) == u64_at(buf@, 5));
            assert(u64_at(p, 11) == u64_at(buf@, 15));
            assert(u64_at(p, 19) == u64_at(buf@, 23));
        }
        Decoded::Frame { msg, consumed: 4 + len as usize }
    } else if tag == TAG_ROUTING && len == 33 {
        let msg = Message::RoutingAnnouncement {
            resource: ResourceId(read_u64(buf, 5)),
            provider: NodeId(read_u64(buf, 13)),
            timestamp: read_u64(buf, 21),
            signature: Signature(read_u64(buf, 29)),
        };
        proof {
            assert(u64_at(p, 1) == u64_at(buf@, 5));
            assert(u64_at(p, 9) == u64_at(buf@, 13));
            assert(u64_at(p, 17) == u64_at(buf@, 21));
            assert(u64_at(p, 25) == u64_at(buf@, 29));
        }
        Decoded::Frame { msg, consumed: 4 + len as usize }
    } else if tag == TAG_ADDRESS && len == 31 {
        let msg = Message::AddressAnnouncement {
            node: NodeId(read_u64(buf, 5)),
            addr: HostAddr {
                ip: ((buf[13] as u32) << 24) | ((buf[14] as u32) << 16) | ((buf[15] as u32) << 8)
                    | (buf[16] as u32),
                port: ((buf[17] as u16) << 8) | (buf[18] as u16),
            },
            timestamp: read_u64(buf, 19),
            signature: Signature(read_u64(buf, 27)),
        };
        proof {
            assert(u64_at(p, 1) == u64_at(buf@, 5));
            assert(u64_at(p, 15) == u64_at(buf@, 19));
            assert(u64_at(p, 23) == u64_at(buf@, 27));
        }
        Decoded::Frame { msg, consumed: 4 + len as usize }
    } else if tag == TAG_PING && len == 9 {
        let msg = Message::Ping { nonce: read_u64(buf, 5) };
        proof {
            assert(u64_at(p, 1) == u64_at(buf@, 5));
        }
        Decoded::Frame { msg, consumed: 4 + len as usize }
    } else if tag == TAG_PONG && len == 9 {
        let msg = Message::Pong { nonce: read_u64(buf, 5) };
        proof {
            assert(u64_at(p, 1) == u64_at(buf@, 5));
        }
        Decoded::Frame { msg, consumed: 4 + len as usize }
    } else {
        Decoded::Failed { err: DecodeError::Malformed }
    }
}

/// Recomposing the extracted big-endian bytes of `v` yields `v`.
proof fn lemma_u64_roundtrip(v: u64)
    ensures
        u64_of(
            (v >> 56) as u8,
            (v >> 48) as u8,
            (v >> 40) as u8,
            (v >> 32) as u8,
            (v >> 24) as u8,
            (v >> 16) as u8,
            (v >> 8) as u8,
            v as u8,
        ) == v,
{
    assert(((((v >> 56) as u8) as u64) << 56) | ((((v >> 48) as u8) as u64) << 48) | ((((v >> 40)
        as u8) as u64) << 40) | ((((v >> 32) as u8) as u64) << 32) | ((((v >> 24) as u8) as u64)
        << 24) | ((((v >> 16) as u8) as u64) << 16) | ((((v >> 8) as u8) as u64) << 8) | ((
    v as u8) as u64) == v) by (bit_vector);
}

/// Recomposing the extracted big-endian bytes of `v` yields `v`.
proof fn lemma_u32_roundtrip(v: u32)
    ensures
        u32_of((v >> 24) as u8, (v >> 16) as u8, (v >> 8) as u8, v as u8) == v,
{
    assert(((((v >> 24) as u8) as u32) << 24) | ((((v >> 16) as u8) as u32) << 16) | ((((v >> 8)
        as u8) as u32) << 8) | ((v as u8) as u32) == v) by (bit_vector);
}

/// Recomposing the extracted big-endian bytes of `v` yields `v`.
proof fn lemma_u16_roundtrip(v: u16)
    ensures
        u16_of((v >> 8) as u8, v as u8) == v,
{
    assert(((((v >> 8) as u8) as u16) << 8) | ((v as u8) as u16) == v) by (bit_vector);
}

/// A length prefix whose upper three bytes are zero reads as its low byte.
proof fn lemma_small_prefix(b: u8)
    ensures
        u32_of(0u8, 0u8, 0u8, b) == b,
{
    assert((((0u8 as u32) << 24) | ((0u8 as u32) << 16) | ((0u8 as u32) << 8) | (b as u32))
        == b) by (bit_vector);
}

/// Law: the codec round-trips. Decoding a buffer that starts with the frame
/// of `m` — whatever bytes follow it — yields exactly `m` and consumes
/// exactly the frame.
pub proof fn lemma_decode_encode(m: Message, rest: Seq<u8>)
    ensures
        decode_spec(encode_spec(m) + rest) == (Decoded::Frame {
            msg: m,
            consumed: encode_spec(m).len() as usize,
        }),
{
    let enc = encode_spec(m);
    let s = enc + rest;
    assert forall|k: int| 0 <= k < enc.len() implies s[k] == enc[k] by {}
    match m {
        Message::Handshake { node, version, timestamp, signature } => {
            lemma_small_prefix(27);
            assert(u32_of(s[0], s[1], s[2], s[3]) == 27);
            let p = s.subrange(4, 31);
            assert forall|k: int| 0 <= k < 27 implies p[k] == enc[4 + k] by {}
            lemma_u64_roundtrip(node.0);
            lemma_u16_roundtrip(version);
            lemma_u64_roundtrip(timestamp);
            lemma_u64_roundtrip(signature.0);
            assert(parse_payload(p) == Some(m));
        },
        Message::RoutingAnnouncement { resource, provider, timestamp, signature } => {
            lemma_small_prefix(33);
            assert(u32_of(s[0], s[1], s[2], s[3]) == 33);
            let p = s.subrange(4, 37);
            assert forall|k: int| 0 <= k < 33 implies p[k] == enc[4 + k] by {}
            lemma_u64_roundtrip(resource.0);
            lemma_u64_roundtrip(provider.0);
            lemma_u64_roundtrip(timestamp);
            lemma_u64_roundtrip(signature.0);
            assert(parse_payload(p) == Some(m));
        },
        Message::AddressAnnouncement { node, addr, timestamp, signature } => {
            lemma_small_prefix(31);
            assert(u32_of(s[0], s[1], s[2], s[3]) == 31);
            let p = s.subrange(4, 35);
            assert forall|k: int| 0 <= k < 31 implies p[k] == enc[4 + k] by {}
            lemma_u64_roundtrip(node.0);
            lemma_u32_roundtrip(addr.ip);
            lemma_u16_roundtrip(addr.port);
            lemma_u64_roundtrip(timestamp);
            lemma_u64_roundtrip(signature.0);
            assert(parse_payload(p) == Some(m));
        },
        Message::Ping { nonce } => {
            lemma_small_prefix(9);
            assert(u32_of(s[0], s[1], s[2], s[3]) == 9);
            let p = s.subrange(4, 13);
            assert forall|k: int| 0 <= k < 9 implies p[k] == enc[4 + k] by {}
            lemma_u64_roundtrip(nonce);
            assert(parse_payload(p) == Some(m));
        },
        Message::Pong { nonce } => {
            lemma_small_prefix(9);
            assert(u32_of(s[0], s[1], s[2], s[3]) == 9);
            let p = s.subrange(4, 13);
            assert forall|k: int| 0 <= k < 9 implies p[k] == enc[4 + k] by {}
            lemma_u64_roundtrip(nonce);
            assert(parse_payload(p) == Some(m));
        },
    }
}

} // verus!
