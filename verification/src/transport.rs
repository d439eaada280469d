//! Per-connection transport buffering.
//!
//! A [`Connection`] owns one read buffer and one write buffer and binds the
//! wire codec to a byte stream the edge moves in arbitrary chunks: the edge
//! feeds whatever bytes arrived and drains whatever the socket will take.
//! Outbound frames are refused — backpressure — when the write buffer is
//! full; the caller keeps the frame and retries once the buffer has drained.

use vstd::prelude::*;
use crate::wire;
use crate::wire::{Decoded, DecodeError, Message};

verus! {

/// One polled step of the read side.
#[derive(PartialEq, Eq, Structural, Clone, Copy, Debug)]
pub enum Polled {
    /// A whole frame was buffered; it has been consumed from the buffer.
    Frame { msg: Message },
    /// No whole frame is buffered yet; feed more bytes.
    Pending,
    /// The buffered bytes are malformed; drop the connection.
    Bad { err: DecodeError },
}

/// The buffers of one peer connection.
pub struct Connection {
    read_buf: Vec<u8>,
    write_buf: Vec<u8>,
    write_cap: usize,
}

impl Connection {
    /// The bytes received and not yet consumed as frames.
    pub closed spec fn read_view(self) -> Seq<u8> {
        self.read_buf@
    }

    /// The bytes queued and not yet written to the stream.
    pub closed spec fn write_view(self) -> Seq<u8> {
        self.write_buf@
    }

    /// The write buffer's capacity: past it, outbound frames are refused.
    pub closed spec fn spec_write_cap(self) -> usize {
        self.write_cap
    }

    /// Fresh buffers for a new connection.
    pub fn new(write_cap: usize) -> (c: Connection)
        ensures
            c.read_view() =~= Seq::<u8>::empty(),
            c.write_view() =~= Seq::<u8>::empty(),
            c.spec_write_cap() == write_cap,
    {
        Connection { read_buf: Vec::new(), write_buf: Vec::new(), write_cap }
    }

    /// Bytes that arrived from the stream, in any chunking.
    pub fn feed(&mut self, chunk: &Vec<u8>)
        ensures
            final(self).read_view() == old(self).read_view() + chunk@,
            final(self).write_view() == old(self).write_view(),
            final(self).spec_write_cap() == old(self).spec_write_cap(),
    {
        let n = chunk.len();
        let mut i: usize = 0;
        while i < n
            invariant
                n == chunk@.len(),
                i <= n,
                self.read_buf@ == old(self).read_buf@ + chunk@.take(i as int),
                self.write_buf@ == old(self).write_buf@,
                self.write_cap == old(self).write_cap,
            decreases n - i,
        {
            self.read_buf.push(chunk[i]);
            proof {
                assert(self.read_buf@ =~= old(self).read_buf@ + chunk@.take(i as int + 1));
            }
            i = i + 1;
        }
        proof {
            assert(chunk@.take(n as int) =~= chunk@);
        }
    }

    /// Try to consume one frame from the read buffer. A whole buffered frame
    /// is returned and consumed; an incomplete one leaves the buffer as it
    /// was, never an error; malformed bytes empty the buffer and report why,
    /// and the caller drops the connection.
    pub fn poll_frame(&mut self) -> (r: Polled)
        ensures
            final(self).write_view() == old(self).write_view(),
            final(self).spec_write_cap() == old(self).spec_write_cap(),
            match wire::decode_spec(old(self).read_view()) {
                Decoded::Frame { msg, consumed } => r == (Polled::Frame { msg }) && final(self).read_view() == old(self).read_view().skip(consumed as int),
                Decoded::Incomplete => r == Polled::Pending && final(self).read_view() == old(self).read_view(),
                Decoded::Failed { err } => r == (Polled::Bad { err }) && final(self).read_view()
                    =~= Seq::<u8>::empty(),
            },
    {
        let decoded = wire::decode(&self.read_buf);
        match decoded {
            Decoded::Frame { msg, consumed } => {
                let n = self.read_buf.len();
                let mut rest: Vec<u8> = Vec::new();
                let mut i: usize = consumed;
                while i < n
                    invariant
                        n == self.read_buf@.len(),
                        consumed <= i <= n,
                        rest@ == self.read_buf@.subrange(consumed as int, i as int),
                    decreases n - i,
                {
                    rest.push(self.read_buf[i]);
                    proof {
                        assert(rest@ =~= self.read_buf@.subrange(consumed as int, i as int + 1));
                    }
                    i = i + 1;
                }
                proof {
                    assert(rest@ =~= self.read_buf@.skip(consumed as int));
                }
                self.read_buf = rest;
                Polled::Frame { msg }
            },
            Decoded::Incomplete => Polled::Pending,
            Decoded::Failed { err } => {
                self.read_buf = Vec::new();
                Polled::Bad { err }
            },
        }
    }

    /// Queue a frame for the stream, unless the write buffer is full:
    /// `false` is backpressure, the buffer is unchanged, and the caller
    /// retries after draining.
    pub fn queue(&mut self, m: &Message) -> (accepted: bool)
        ensures
            final(self).read_view() == old(self).read_view(),
            final(self).spec_write_cap() == old(self).spec_write_cap(),
            accepted ==> final(self).write_view() == old(self).write_view()
                + wire::encode_spec(*m),
            !accepted ==> final(self).write_view() == old(self).write_view() && old(self).write_view().len() + wire::encode_spec(*m).len() > old(self).spec_write_cap(),
    {
        let mut frame = wire::encode(m);
        let flen = frame.len();
        let pending = self.write_buf.len();
        if pending >= self.write_cap || self.write_cap - pending < flen {
            return false;
        }
        self.write_buf.append(&mut frame);
        true
    }

    /// Take up to `max` front bytes of the write buffer for the stream —
    /// however much the socket accepted.
    pub fn drain(&mut self, max: usize) -> (out: Vec<u8>)
        ensures
            final(self).read_view() == old(self).read_view(),
            final(self).spec_write_cap() == old(self).spec_write_cap(),
            out@ == old(self).write_view().take(drained_len(old(self).write_view(), max)),
            final(self).write_view() == old(self).write_view().skip(
                drained_len(old(self).write_view(), max),
            ),
    {
        let n = self.write_buf.len();
        let take: usize = if max < n {
            max
        } else {
            n
        };
        let mut out: Vec<u8> = Vec::new();
        let mut i: usize = 0;
        while i < take
            invariant
                take <= n == self.write_buf@.len(),
                i <= take,
                out@ == self.write_buf@.take(take as int).take(i as int),
            decreases take - i,
        {
            out.push(self.write_buf[i]);
            proof {
                assert(out@ =~= self.write_buf@.take(take as int).take(i as int + 1));
            }
            i = i + 1;
        }
        let mut rest: Vec<u8> = Vec::new();
        let mut j: usize = take;
        while j < n
            invariant
                take <= j <= n,
                n == self.write_buf@.len(),
                rest@ == self.write_buf@.subrange(take as int, j as int),
            decreases n - j,
        {
            rest.push(self.write_buf[j]);
            proof {
                assert(rest@ =~= self.write_buf@.subrange(take as int, j as int + 1));
            }
            j = j + 1;
        }
        proof {
            assert(out@ =~= self.write_buf@.take(take as int));
            assert(rest@ =~= self.write_buf@.skip(take as int));
            assert(take as int == drained_len(self.write_buf@, max));
        }
        self.write_buf = rest;
        out
    }

    /// How many bytes wait for the stream.
    pub fn pending_out(&self) -> (n: usize)
        ensures
            n == self.write_view().len(),
    {
        self.write_buf.len()
    }
}

/// How many bytes a drain of up to `max` takes from a write buffer `w`.
pub open spec fn drained_len(w: Seq<u8>, max: usize) -> int {
    if max < w.len() {
        max as int
    } else {
        w.len() as int
    }
}

} // verus!
