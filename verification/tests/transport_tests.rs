use radicle_node::transport::{Connection, Polled};
use radicle_node::wire::{encode, DecodeError, Message};

#[test]
fn frames_arrive_whatever_the_chunking() {
    let m = Message::Ping { nonce: 424242 };
    let bytes = encode(&m);
    let mut c = Connection::new(1024);
    assert_eq!(c.poll_frame(), Polled::Pending);
    let (a, b) = bytes.split_at(5);
    c.feed(&a.to_vec());
    assert_eq!(c.poll_frame(), Polled::Pending);
    c.feed(&b.to_vec());
    assert_eq!(c.poll_frame(), Polled::Frame { msg: m });
    assert_eq!(c.poll_frame(), Polled::Pending);
}

#[test]
fn two_frames_in_one_chunk_come_out_in_order() {
    let m1 = Message::Ping { nonce: 1 };
    let m2 = Message::Pong { nonce: 2 };
    let mut bytes = encode(&m1);
    bytes.extend(encode(&m2));
    let mut c = Connection::new(1024);
    c.feed(&bytes);
    assert_eq!(c.poll_frame(), Polled::Frame { msg: m1 });
    assert_eq!(c.poll_frame(), Polled::Frame { msg: m2 });
    assert_eq!(c.poll_frame(), Polled::Pending);
}

#[test]
fn malformed_bytes_drop_the_buffer() {
    let mut c = Connection::new(1024);
    c.feed(&vec![0, 0, 0, 9, 99, 0, 0, 0, 0, 0, 0, 0, 0]);
    assert_eq!(c.poll_frame(), Polled::Bad { err: DecodeError::Malformed });
    assert_eq!(c.poll_frame(), Polled::Pending);
}

#[test]
fn a_full_write_buffer_refuses_frames_until_drained() {
    let m = Message::Ping { nonce: 7 };
    // Capacity for exactly one 13-byte ping frame.
    let mut c = Connection::new(13);
    assert!(c.queue(&m));
    assert!(!c.queue(&m));
    assert_eq!(c.pending_out(), 13);
    let first = c.drain(4);
    assert_eq!(first, encode(&m)[..4].to_vec());
    assert_eq!(c.pending_out(), 9);
    let rest = c.drain(1024);
    assert_eq!(rest, encode(&m)[4..].to_vec());
    assert_eq!(c.pending_out(), 0);
    assert!(c.queue(&m));
}
