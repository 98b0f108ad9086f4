//! Datagram framing inside a stream.
//!
//! A sender cuts its stream into datagrams of [`DATAGRAM_STRIDE`] bytes. Each
//! starts with the send time in microseconds, eight bytes little-endian; zeros
//! follow. A receiver reads the send times back from the byte stream, however it
//! is cut into chunks, and derives the variation of the one-way delay from them.

use crate::wire::{le_value, push_u64_le, read_u64_le, u64_bytes, u64_bytes_read_back};
use vstd::prelude::*;

verus! {

/// The length of one datagram in the stream: an eight-byte send time, then zeros.
pub const DATAGRAM_STRIDE: usize = 1400;

/// The length of the send time at the start of a datagram.
pub const STAMP_LEN: usize = 8;

// ───────────────────────────── writing ─────────────────────────────

/// The bytes of one datagram.
pub open spec fn datagram(stamp: u64) -> Seq<u8> {
    u64_bytes(stamp) + Seq::new((DATAGRAM_STRIDE - STAMP_LEN) as nat, |i: int| 0u8)
}

/// The bytes of consecutive datagrams.
pub open spec fn frames(stamps: Seq<u64>) -> Seq<u8>
    decreases stamps.len(),
{
    if stamps.len() == 0 {
        Seq::empty()
    } else {
        frames(stamps.drop_last()) + datagram(stamps.last())
    }
}

/// A datagram has the stride's length.
pub proof fn lemma_datagram_len(stamp: u64)
    ensures
        datagram(stamp).len() == DATAGRAM_STRIDE,
{
    u64_bytes_read_back(stamp);
}

/// Consecutive datagrams take one stride each.
pub proof fn lemma_frames_len(stamps: Seq<u64>)
    ensures
        frames(stamps).len() == stamps.len() * DATAGRAM_STRIDE,
    decreases stamps.len(),
{
    if stamps.len() > 0 {
        lemma_frames_len(stamps.drop_last());
        lemma_datagram_len(stamps.last());
    }
}

/// The first `len` bytes of a datagram.
pub fn build_datagram(stamp: u64, len: usize) -> (v: Vec<u8>)
    requires
        len <= DATAGRAM_STRIDE,
    ensures
        v@ == datagram(stamp).subrange(0, len as int),
{
    let mut head: Vec<u8> = Vec::new();
    push_u64_le(&mut head, stamp);
    proof {
        u64_bytes_read_back(stamp);
    }
    assert(head@ =~= u64_bytes(stamp));
    let mut v: Vec<u8> = Vec::new();
    let mut i: usize = 0;
    while i < len
        invariant
            i <= len <= DATAGRAM_STRIDE,
            head@ == u64_bytes(stamp),
            head.len() == 8,
            v@ == datagram(stamp).subrange(0, i as int),
        decreases len - i,
    {
        if i < STAMP_LEN {
            v.push(head[i]);
        } else {
            v.push(0);
        }
        i += 1;
        assert(v@ =~= datagram(stamp).subrange(0, i as int));
    }
    v
}

// ───────────────────────────── reading ─────────────────────────────

/// How far the receiver is inside the current datagram.
pub struct DatagramPosition {
    /// Bytes of the current datagram seen so far.
    pub pos: nat,
    /// The bytes of its send time among them.
    pub partial: Seq<u8>,
    /// Complete datagrams seen.
    pub received: nat,
}

/// The position after one more byte.
pub open spec fn byte_read(p: DatagramPosition, b: u8) -> DatagramPosition {
    let partial = if p.pos < STAMP_LEN {
        p.partial.push(b)
    } else {
        p.partial
    };
    if p.pos + 1 >= DATAGRAM_STRIDE {
        DatagramPosition { pos: 0, partial: Seq::empty(), received: p.received + 1 }
    } else {
        DatagramPosition { pos: p.pos + 1, partial, received: p.received }
    }
}

/// The position after the bytes `s`.
pub open spec fn bytes_read(p: DatagramPosition, s: Seq<u8>) -> DatagramPosition
    decreases s.len(),
{
    if s.len() == 0 {
        p
    } else {
        byte_read(bytes_read(p, s.drop_last()), s.last())
    }
}

/// The send times that the bytes `s` complete, in order.
pub open spec fn stamps_read(p: DatagramPosition, s: Seq<u8>) -> Seq<u64>
    decreases s.len(),
{
    if s.len() == 0 {
        Seq::empty()
    } else {
        let before = bytes_read(p, s.drop_last());
        let earlier = stamps_read(p, s.drop_last());
        if before.pos == STAMP_LEN - 1 {
            earlier.push(le_value(before.partial.push(s.last())) as u64)
        } else {
            earlier
        }
    }
}

/// The partial send time is as long as the position says.
pub open spec fn position_ok(p: DatagramPosition) -> bool {
    &&& p.pos < DATAGRAM_STRIDE
    &&& p.partial.len() == if p.pos < STAMP_LEN {
        p.pos
    } else {
        STAMP_LEN as nat
    }
}

/// Reading keeps the position valid, and completes at most one datagram per byte.
pub proof fn lemma_bytes_read_ok(p: DatagramPosition, s: Seq<u8>)
    requires
        position_ok(p),
    ensures
        position_ok(bytes_read(p, s)),
        p.received <= bytes_read(p, s).received <= p.received + s.len(),
    decreases s.len(),
{
    if s.len() > 0 {
        lemma_bytes_read_ok(p, s.drop_last());
    }
}

/// No byte is lost or counted twice: the complete datagrams and the position in
/// the current one make up all bytes read.
pub proof fn bytes_add_up(p: DatagramPosition, s: Seq<u8>)
    requires
        position_ok(p),
    ensures
        ({
            let q = bytes_read(p, s);
            q.received * DATAGRAM_STRIDE + q.pos == p.received * DATAGRAM_STRIDE + p.pos + s.len()
        }),
    decreases s.len(),
{
    if s.len() > 0 {
        bytes_add_up(p, s.drop_last());
        lemma_bytes_read_ok(p, s.drop_last());
    }
}

/// Cutting the stream into chunks changes nothing: reading `a` and then `b`
/// leaves the same position, and yields the same send times, as reading both at once.
pub proof fn reading_in_chunks(p: DatagramPosition, a: Seq<u8>, b: Seq<u8>)
    ensures
        bytes_read(p, a + b) == bytes_read(bytes_read(p, a), b),
        stamps_read(p, a + b) == stamps_read(p, a) + stamps_read(bytes_read(p, a), b),
    decreases b.len(),
{
    if b.len() == 0 {
        assert(a + b == a);
        assert(stamps_read(p, a) + Seq::<u64>::empty() == stamps_read(p, a));
    } else {
        reading_in_chunks(p, a, b.drop_last());
        assert((a + b).drop_last() == a + b.drop_last());
        assert((a + b).last() == b.last());
        assert(stamps_read(p, a + b) =~= stamps_read(p, a) + stamps_read(bytes_read(p, a), b));
    }
}

/// Bytes behind the send time only move the position.
pub proof fn lemma_payload_read(p: DatagramPosition, s: Seq<u8>)
    requires
        position_ok(p),
        p.pos >= STAMP_LEN,
        p.pos + s.len() <= DATAGRAM_STRIDE,
    ensures
        stamps_read(p, s) == Seq::<u64>::empty(),
        bytes_read(p, s) == if p.pos + s.len() == DATAGRAM_STRIDE && s.len() > 0 {
            DatagramPosition { pos: 0, partial: Seq::empty(), received: p.received + 1 }
        } else {
            DatagramPosition { pos: p.pos + s.len(), ..p }
        },
    decreases s.len(),
{
    if s.len() > 0 {
        lemma_payload_read(p, s.drop_last());
    }
}

/// Bytes inside the send time collect there; the eighth completes it.
pub proof fn lemma_header_read(p: DatagramPosition, s: Seq<u8>)
    requires
        position_ok(p),
        p.pos + s.len() <= STAMP_LEN,
    ensures
        bytes_read(p, s) == (DatagramPosition {
            pos: p.pos + s.len(),
            partial: p.partial + s,
            received: p.received,
        }),
        stamps_read(p, s) == if s.len() > 0 && p.pos + s.len() == STAMP_LEN {
            seq![le_value(p.partial + s) as u64]
        } else {
            Seq::<u64>::empty()
        },
    decreases s.len(),
{
    if s.len() == 0 {
        assert(p.partial + s == p.partial);
    } else {
        lemma_header_read(p, s.drop_last());
        assert((p.partial + s.drop_last()).push(s.last()) == p.partial + s);
        assert(stamps_read(p, s) =~= if p.pos + s.len() == STAMP_LEN {
            seq![le_value(p.partial + s) as u64]
        } else {
            Seq::<u64>::empty()
        });
    }
}

/// What a sender frames, a receiver at a datagram boundary reads back: every
/// send time in order, and one received datagram for each.
pub proof fn framed_stream_reads_back(p: DatagramPosition, stamps: Seq<u64>)
    requires
        p.pos == 0,
        p.partial.len() == 0,
    ensures
        stamps_read(p, frames(stamps)) == stamps,
        bytes_read(p, frames(stamps)) == (DatagramPosition {
            pos: 0,
            partial: Seq::empty(),
            received: p.received + stamps.len(),
        }),
    decreases stamps.len(),
{
    assert(p.partial =~= Seq::<u8>::empty());
    if stamps.len() > 0 {
        let head = stamps.drop_last();
        let stamp = stamps.last();
        framed_stream_reads_back(p, head);
        let q = bytes_read(p, frames(head));
        reading_in_chunks(p, frames(head), datagram(stamp));
        let time = u64_bytes(stamp);
        let zeros = Seq::new((DATAGRAM_STRIDE - STAMP_LEN) as nat, |i: int| 0u8);
        u64_bytes_read_back(stamp);
        reading_in_chunks(q, time, zeros);
        lemma_header_read(q, time);
        assert(q.partial + time == time);
        lemma_payload_read(bytes_read(q, time), zeros);
        assert(stamps_read(q, datagram(stamp)) =~= seq![stamp]);
        assert(stamps =~= head + seq![stamp]);
    } else {
        assert(stamps =~= Seq::<u64>::empty());
    }
}

// ───────────────────────────── delay variation ─────────────────────────────

/// How far the spacing of two arrivals is from the spacing of their send times,
/// in microseconds.
///
/// The difference is taken modulo 2^64 and read as a signed number, so it is the
/// plain distance wherever that is below 2^63.
pub open spec fn delay_variation(prev_send: u64, prev_recv: u64, send: u64, recv: u64) -> u64 {
    let d = ((recv - prev_recv) - (send - prev_send)) % 0x1_0000_0000_0000_0000;
    if d < 0x8000_0000_0000_0000 {
        d as u64
    } else {
        (0x1_0000_0000_0000_0000 - d) as u64
    }
}

/// The delay variations that the send times lead to when all arrive at `recv`;
/// `last` is the send and arrival time of the datagram before them.
pub open spec fn variations(last: Option<(u64, u64)>, stamps: Seq<u64>, recv: u64) -> Seq<u64>
    decreases stamps.len(),
{
    if stamps.len() == 0 {
        Seq::empty()
    } else {
        let earlier = variations(last, stamps.drop_last(), recv);
        match last_seen(last, stamps.drop_last(), recv) {
            Some(prev) => earlier.push(delay_variation(prev.0, prev.1, stamps.last(), recv)),
            None => earlier,
        }
    }
}

/// The send and arrival time of the latest datagram once the send times have arrived.
pub open spec fn last_seen(last: Option<(u64, u64)>, stamps: Seq<u64>, recv: u64) -> Option<
    (u64, u64),
> {
    if stamps.len() == 0 {
        last
    } else {
        Some((stamps.last(), recv))
    }
}

/// Where neither spacing is out of the signed range, the delay variation is the
/// plain distance of the two spacings.
pub proof fn delay_variation_is_distance(prev_send: u64, prev_recv: u64, send: u64, recv: u64)
    requires
        -0x8000_0000_0000_0000 < (recv - prev_recv) - (send - prev_send) < 0x8000_0000_0000_0000,
    ensures
        delay_variation(prev_send, prev_recv, send, recv) == if (recv - prev_recv) >= (send
            - prev_send) {
            (recv - prev_recv) - (send - prev_send)
        } else {
            (send - prev_send) - (recv - prev_recv)
        },
{
}

fn delay_variation_us(prev_send: u64, prev_recv: u64, send: u64, recv: u64) -> (r: u64)
    ensures
        r == delay_variation(prev_send, prev_recv, send, recv),
{
    let rd: u64 = recv.wrapping_sub(prev_recv);
    let sd: u64 = send.wrapping_sub(prev_send);
    let d: u64 = rd.wrapping_sub(sd);
    if d < 0x8000_0000_0000_0000 {
        d
    } else {
        0u64.wrapping_sub(d)
    }
}

/// The receiving side of the datagram framing.
pub struct DatagramReader {
    /// Position inside the current datagram.
    pub dg_pos: usize,
    /// The bytes of the send time of the current datagram seen so far.
    pub ts_partial_buf: Vec<u8>,
    /// Send and arrival time, in microseconds, of the latest datagram whose send
    /// time is complete.
    pub last: Option<(u64, u64)>,
    /// Complete datagrams received.
    pub app_datagrams_received: u64,
}

impl DatagramReader {
    /// The position in the framing.
    pub open spec fn position(self) -> DatagramPosition {
        DatagramPosition {
            pos: self.dg_pos as nat,
            partial: self.ts_partial_buf@,
            received: self.app_datagrams_received as nat,
        }
    }

    /// The partial send time is as long as the position says.
    pub open spec fn wf(self) -> bool {
        position_ok(self.position())
    }

    /// A reader at the start of a stream.
    pub fn new() -> (r: Self)
        ensures
            r.wf(),
            r.position() == (DatagramPosition { pos: 0, partial: Seq::empty(), received: 0 }),
            r.last is None,
    {
        DatagramReader {
            dg_pos: 0,
            ts_partial_buf: Vec::new(),
            last: None,
            app_datagrams_received: 0,
        }
    }

    /// Takes one complete send time in.
    fn stamp(&mut self, recv_us: u64, out: &mut Vec<u64>)
        requires
            old(self).ts_partial_buf.len() == 8,
        ensures
            final(self).position() == old(self).position(),
            final(self).last == Some((le_value(old(self).ts_partial_buf@) as u64, recv_us)),
            final(out)@ == match old(self).last {
                Some(prev) => old(out)@.push(
                    delay_variation(
                        prev.0,
                        prev.1,
                        le_value(old(self).ts_partial_buf@) as u64,
                        recv_us,
                    ),
                ),
                None => old(out)@,
            },
    {
        let send_us: u64 = read_u64_le(self.ts_partial_buf.as_slice(), 0);
        assert(self.ts_partial_buf@.subrange(0, 8) == self.ts_partial_buf@);
        match self.last {
            Some(prev) => {
                out.push(delay_variation_us(prev.0, prev.1, send_us, recv_us));
            },
            None => {},
        }
        self.last = Some((send_us, recv_us));
    }

    /// Reads a chunk of the stream that arrived at `recv_us` and returns the
    /// delay variations, in microseconds, of the datagrams whose send time it
    /// completes.
    pub fn feed(&mut self, chunk: &[u8], recv_us: u64) -> (out: Vec<u64>)
        requires
            old(self).wf(),
            old(self).app_datagrams_received + chunk@.len() <= u64::MAX,
        ensures
            final(self).wf(),
            final(self).position() == bytes_read(old(self).position(), chunk@),
            final(self).last == last_seen(
                old(self).last,
                stamps_read(old(self).position(), chunk@),
                recv_us,
            ),
            out@ == variations(
                old(self).last,
                stamps_read(old(self).position(), chunk@),
                recv_us,
            ),
    {
        let mut out: Vec<u64> = Vec::new();
        let ghost start = self.position();
        let ghost first = self.last;
        let n: usize = chunk.len();
        let mut i: usize = 0;
        assert(chunk@.subrange(0, 0) == Seq::<u8>::empty());
        while i < n
            invariant
                i <= n == chunk@.len(),
                self.wf(),
                position_ok(start),
                start.received + n <= u64::MAX,
                self.position() == bytes_read(start, chunk@.subrange(0, i as int)),
                self.last == last_seen(
                    first,
                    stamps_read(start, chunk@.subrange(0, i as int)),
                    recv_us,
                ),
                out@ == variations(first, stamps_read(start, chunk@.subrange(0, i as int)), recv_us),
            decreases n - i,
        {
            let ghost seen = chunk@.subrange(0, i as int);
            let ghost here = self.position();
            proof {
                lemma_bytes_read_ok(start, seen);
            }
            if self.dg_pos < STAMP_LEN {
                let b: u8 = chunk[i];
                let ghost one = seq![b];
                proof {
                    assert(chunk@.subrange(0, i + 1) =~= seen + one);
                    reading_in_chunks(start, seen, one);
                    lemma_header_read(here, one);
                    assert(here.partial + one =~= here.partial.push(b));
                }
                self.ts_partial_buf.push(b);
                self.dg_pos += 1;
                i += 1;
                if self.dg_pos == STAMP_LEN {
                    self.stamp(recv_us, &mut out);
                    proof {
                        let earlier = stamps_read(start, seen);
                        let now = stamps_read(start, chunk@.subrange(0, i as int));
                        assert(now.drop_last() =~= earlier);
                        assert(now.last() == le_value(here.partial.push(b)) as u64);
                    }
                } else {
                    assert(stamps_read(start, chunk@.subrange(0, i as int)) =~= stamps_read(
                        start,
                        seen,
                    ));
                }
            } else {
                let remain: usize = DATAGRAM_STRIDE - self.dg_pos;
                let skip: usize = if remain <= n - i {
                    remain
                } else {
                    n - i
                };
                let ghost payload = chunk@.subrange(i as int, i + skip);
                proof {
                    assert(chunk@.subrange(0, i + skip) =~= seen + payload);
                    reading_in_chunks(start, seen, payload);
                    lemma_payload_read(here, payload);
                    assert(stamps_read(start, chunk@.subrange(0, i + skip)) =~= stamps_read(
                        start,
                        seen,
                    ));
                }
                self.dg_pos += skip;
                i += skip;
                if self.dg_pos >= DATAGRAM_STRIDE {
                    self.dg_pos = 0;
                    self.ts_partial_buf.clear();
                    self.app_datagrams_received += 1;
                }
            }
        }
        assert(chunk@.subrange(0, n as int) == chunk@);
        out
    }
}

} // verus!
