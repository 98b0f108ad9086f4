//! What a transfer promises from its trigger to its end, and what the receiver makes
//! of the datagrams that arrive.

use crate::framing::{
    bytes_read, datagram, delay_variation, framed_stream_reads_back, frames, last_seen,
    reading_in_chunks, stamps_read, variations,
};
use crate::server::drained_connection;
use crate::stream::{
    drained, new_stream, pumped, trigger_read, ConnectionModel, DrainAction, DrainEventModel,
    PumpActionModel, PumpEvent, StreamModel, TriggerStep,
};
use crate::wire::{
    bytes_run_from_the_least_significant, le_value, trigger_bytes_have_their_meaning, u64_bytes,
};
use vstd::prelude::*;

verus! {

// ───────────────────────────── datagrams ─────────────────────────────

/// A datagram has 1400 bytes: its send time in the first eight, the least significant
/// byte first, and zeros behind it.
pub proof fn datagram_is_a_time_and_zeros(stamp: u64, i: int)
    ensures
        datagram(stamp).len() == 1400,
        datagram(stamp).subrange(0, 8) == u64_bytes(stamp),
        datagram(stamp)[0] == stamp % 256,
        8 <= i < 1400 ==> datagram(stamp)[i] == 0,
{
    bytes_run_from_the_least_significant(stamp);
    assert(datagram(stamp).subrange(0, 8) =~= u64_bytes(stamp));
}

/// The delay variation of a datagram compares it with the one before: that before it
/// in the same read, which arrived at the same time, or the last one of an earlier
/// read. The very first datagram has none.
pub proof fn variation_compares_with_the_datagram_before(
    last: Option<(u64, u64)>,
    stamps: Seq<u64>,
    recv: u64,
    i: int,
)
    requires
        0 <= i < stamps.len(),
    ensures
        variations(last, stamps, recv).len() == (if last is Some {
            stamps.len() as int
        } else {
            stamps.len() - 1
        }),
        last is Some && i == 0 ==> variations(last, stamps, recv)[0] == delay_variation(
            last.unwrap().0,
            last.unwrap().1,
            stamps[0],
            recv,
        ),
        last is Some && i > 0 ==> variations(last, stamps, recv)[i] == delay_variation(
            stamps[i - 1],
            recv,
            stamps[i],
            recv,
        ),
        last is None && i > 0 ==> variations(last, stamps, recv)[i - 1] == delay_variation(
            stamps[i - 1],
            recv,
            stamps[i],
            recv,
        ),
        last_seen(last, stamps, recv) == Some((stamps.last(), recv)),
    decreases stamps.len(),
{
    reveal_with_fuel(variations, 2);
    let front = stamps.drop_last();
    if front.len() > 0 {
        if i < front.len() {
            variation_compares_with_the_datagram_before(last, front, recv, i);
        } else {
            variation_compares_with_the_datagram_before(last, front, recv, 0);
        }
    }
}

// ───────────────────────────── triggers ─────────────────────────────

/// A stream does what its trigger says: it serves the transfer in the direction and at
/// the rate of the nine bytes, however they were cut into reads, and one that ends with
/// the statistics byte in front asks for statistics.
pub proof fn stream_follows_its_trigger(a: Seq<u8>, b: Seq<u8>, fin: bool)
    requires
        a.len() < 9,
        a.len() + b.len() >= 9,
    ensures
        ({
            let (v, first) = trigger_read(new_stream(), a, false);
            let (w, second) = trigger_read(v, b, fin);
            let buf = a + b;
            &&& !v.ready
            &&& first == (if a.len() == 0 {
                TriggerStep::Wait
            } else {
                TriggerStep::ReadAgain
            })
            &&& second == TriggerStep::Ready
            &&& w.ready
            &&& w.is_stats_request <==> fin && buf[0] == 255
            &&& !w.is_stats_request ==> {
                &&& w.mode is Uplink <==> buf[0] == 1
                &&& w.bandwidth_limit == le_value(buf.subrange(1, 9))
            }
            &&& w.wire.len() == 0 && w.stamps.len() == 0 && !w.finished && !w.reply_sent
        }),
{
    assert(Seq::<u8>::empty() + a =~= a);
    trigger_bytes_have_their_meaning(a, false);
    trigger_bytes_have_their_meaning(a + b, fin);
}

/// A stream that ends without a trigger is served without a limit.
pub proof fn ended_stream_is_served_unlimited(a: Seq<u8>)
    requires
        a.len() < 9,
        a.len() > 0 ==> a[0] != 255,
    ensures
        ({
            let (v, step) = trigger_read(new_stream(), a, true);
            &&& step == TriggerStep::Ready
            &&& v.ready && !v.is_stats_request && v.mode is Downlink && v.bandwidth_limit == 0
        }),
{
    assert(Seq::<u8>::empty() + a =~= a);
    trigger_bytes_have_their_meaning(a, true);
}

// ───────────────────────────── sending ─────────────────────────────

/// A stream that may be written to asks for its next datagram: 1400 bytes, or what is
/// left of a transfer with a size, at the rate of its trigger, and without a limit
/// where the rate is 0. Without a trigger, or when it has ended, it asks for nothing.
pub proof fn stream_asks_for_its_next_datagram(v: StreamModel, send_size: nat)
    requires
        v.pos == v.staged.len(),
        send_size > 0 ==> v.wire.len() < send_size,
    ensures
        ({
            let (w, a) = pumped(v, send_size, PumpEvent::Start);
            &&& !v.ready || v.finished ==> a is Return && w == v
            &&& v.ready && !v.finished ==> (a matches PumpActionModel::Admit { bytes, limit } && {
                &&& send_size == 0 || send_size - v.wire.len() >= 1400 ==> bytes == 1400
                &&& 0 < send_size && send_size - v.wire.len() < 1400 ==> bytes == send_size
                    - v.wire.len()
                &&& v.bandwidth_limit == 0 ==> limit is None
                &&& v.bandwidth_limit > 0 ==> limit == Some(v.bandwidth_limit)
            })
        }),
{
}

/// A stream that becomes writable goes on where it stopped: the rest of a datagram that
/// was begun is offered first; one of which nothing went out is dropped and asked for
/// anew, so that it gets a fresh send time.
pub proof fn begun_datagram_goes_on(v: StreamModel, send_size: nat)
    requires
        v.ready,
        !v.finished,
        v.pos < v.staged.len(),
    ensures
        ({
            let (w, a) = pumped(v, send_size, PumpEvent::Start);
            &&& v.wire.len() > 0 ==> w == v && (a matches PumpActionModel::Write { data } && data
                == v.staged.subrange(v.pos as int, v.staged.len() as int))
            &&& v.wire.len() == 0 ==> a is Admit && w.stamps.len() == 0 && w.staged.len() == 0
                && w.bandwidth_limit == v.bandwidth_limit && w.mode == v.mode
        }),
{
}

/// An admitted datagram is offered as it is: its send time is the present one, and its
/// bytes are the first ones of that datagram. One that is not admitted waits.
pub proof fn admitted_datagram_carries_the_present_time(
    v: StreamModel,
    send_size: nat,
    now_us: u64,
)
    requires
        v.pos == v.staged.len(),
        send_size > 0 ==> v.wire.len() < send_size,
    ensures
        ({
            let (w, a) = pumped(v, send_size, PumpEvent::Admission { granted: true, now_us });
            &&& a matches PumpActionModel::Write { data } && {
                &&& data.len() == (if send_size > 0 && send_size - v.wire.len() < 1400 {
                    send_size - v.wire.len()
                } else {
                    1400
                })
                &&& data == datagram(now_us).subrange(0, data.len() as int)
            }
            &&& w.stamps == v.stamps.push(now_us)
            &&& w.wire == v.wire
        }),
        pumped(v, send_size, PumpEvent::Admission { granted: false, now_us }) == (
            v,
            PumpActionModel::WantWrite,
        ),
{
    bytes_run_from_the_least_significant(now_us);
    let n = if send_size > 0 && send_size - v.wire.len() < 1400 {
        send_size - v.wire.len()
    } else {
        1400
    };
    let staged = datagram(now_us).subrange(0, n);
    assert(staged.subrange(0, staged.len() as int) =~= staged);
}

/// What the transport took of the offered bytes goes out, in order; the rest waits for
/// the next time, and the end of the stream follows once all of the size is out.
pub proof fn taken_bytes_go_out(v: StreamModel, send_size: nat, n: usize)
    requires
        v.pos + n <= v.staged.len(),
    ensures
        ({
            let (w, a) = pumped(v, send_size, PumpEvent::Written(n));
            &&& w.wire == v.wire + v.staged.subrange(v.pos as int, v.pos + n)
            &&& w.stamps == v.stamps
            &&& v.pos + n < v.staged.len() ==> a is WantWrite
            &&& v.pos + n == v.staged.len() ==> (a is WriteFin <==> send_size > 0 && v.wire.len()
                + n >= send_size)
            &&& v.pos + n == v.staged.len() && !(a is WriteFin) ==> a is Admit
        }),
        pumped(v, send_size, PumpEvent::FinWritten).0.finished,
        pumped(v, send_size, PumpEvent::Blocked) == (v, PumpActionModel::WantWrite),
        pumped(v, send_size, PumpEvent::Failed) == (v, PumpActionModel::Return),
{
}

// ───────────────────────────── receiving ─────────────────────────────

/// A receiving stream reads on while bytes arrive, and answers exactly once, with the
/// number of datagrams received, where nothing more is to be read after its end was
/// seen. A stream that does not receive does nothing.
pub proof fn uplink_is_answered_after_its_end(
    v: StreamModel,
    e: DrainEventModel,
    received: u64,
)
    ensures
        ({
            let (w, a) = drained(v, e, received);
            let receives = v.ready && v.mode is Uplink;
            let ended = v.fin_seen || (e matches DrainEventModel::Read { fin, .. } && fin);
            let more = e is Start || (e matches DrainEventModel::Read { data, .. } && data.len()
                > 0);
            &&& !receives ==> w == v && a == DrainAction::Return
            &&& receives && more ==> a == DrainAction::Read
            &&& receives && !more && ended && !v.reply_sent ==> a == (DrainAction::Reply {
                recv_count: received,
            }) && w.reply_sent
            &&& receives && !more && (!ended || v.reply_sent) ==> a == DrainAction::Return
                && w.reply_sent == v.reply_sent
            &&& receives && e is Start ==> !w.fin_seen
            &&& receives && !(e is Start) ==> w.fin_seen == ended
        }),
{
}

/// Datagrams are counted over all reads of a connection, wherever the reads cut them:
/// two reads leave the connection as one read of the bytes of both would, and the
/// second one goes on comparing with the last datagram of the first.
pub proof fn datagrams_are_counted_across_reads(
    c: ConnectionModel,
    id: u64,
    a: Seq<u8>,
    b: Seq<u8>,
    fin: bool,
    first: u64,
    second: u64,
)
    requires
        c.streams.contains_key(id),
        c.streams[id].ready,
        c.streams[id].mode is Uplink,
    ensures
        ({
            let (d, va, _) = drained_connection(
                c,
                id,
                DrainEventModel::Read { data: a, fin: false, recv_us: first },
            );
            let (e, vb, _) = drained_connection(
                d,
                id,
                DrainEventModel::Read { data: b, fin, recv_us: second },
            );
            let stamps = stamps_read(c.position, a + b);
            &&& e.position == bytes_read(c.position, a + b)
            &&& stamps == stamps_read(c.position, a) + stamps_read(d.position, b)
            &&& va == variations(c.last, stamps_read(c.position, a), first)
            &&& vb == variations(d.last, stamps_read(d.position, b), second)
            &&& d.last == last_seen(c.last, stamps_read(c.position, a), first)
            &&& e.send_size == c.send_size
            &&& e.prev_bytes_sent == c.prev_bytes_sent && e.prev_bytes_recv == c.prev_bytes_recv
        }),
{
    reading_in_chunks(c.position, a, b);
}

/// Whole datagrams that a client sends are all counted, each with its send time.
pub proof fn whole_datagrams_are_counted(
    c: ConnectionModel,
    id: u64,
    stamps: Seq<u64>,
    fin: bool,
    recv_us: u64,
)
    requires
        c.streams.contains_key(id),
        c.streams[id].ready,
        c.streams[id].mode is Uplink,
        c.position.pos == 0,
        c.position.partial.len() == 0,
    ensures
        ({
            let (d, v, _) = drained_connection(
                c,
                id,
                DrainEventModel::Read { data: frames(stamps), fin, recv_us },
            );
            &&& d.position.received == c.position.received + stamps.len()
            &&& d.position.pos == 0
            &&& v == variations(c.last, stamps, recv_us)
            &&& d.last == last_seen(c.last, stamps, recv_us)
        }),
{
    framed_stream_reads_back(c.position, stamps);
}

/// Receiving concerns one stream of the connection alone, and a stream that does not
/// receive counts nothing.
pub proof fn receiving_keeps_other_streams(
    c: ConnectionModel,
    id: u64,
    e: DrainEventModel,
    other: u64,
)
    requires
        c.streams.contains_key(id),
    ensures
        ({
            let (d, v, _) = drained_connection(c, id, e);
            let receives = c.streams[id].ready && c.streams[id].mode is Uplink;
            &&& other != id ==> (d.streams.contains_key(other) <==> c.streams.contains_key(other))
            &&& other != id && c.streams.contains_key(other) ==> d.streams[other]
                == c.streams[other]
            &&& !receives || !(e is Read) ==> v.len() == 0 && d.position == c.position && d.last
                == c.last
        }),
{
}

} // verus!
