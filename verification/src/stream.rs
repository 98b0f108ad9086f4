//! One stream of the benchmark server: its trigger, the datagrams that it
//! sends, and the datagrams that it receives.

use crate::framing::{
    build_datagram, bytes_read, datagram, frames, framed_stream_reads_back, last_seen,
    lemma_datagram_len, lemma_frames_len, lemma_header_read, lemma_payload_read,
    reading_in_chunks, stamps_read, variations, DatagramPosition, DatagramReader,
    DATAGRAM_STRIDE, STAMP_LEN,
};
use crate::maps::map_get_mut;
use crate::wire::{decode_trigger_buf, trigger_decision, TransferMode, TriggerDecision};
use std::collections::HashMap;
use vstd::prelude::*;

verus! {

broadcast use vstd::std_specs::hash::group_hash_axioms;

// ───────────────────────────── model ─────────────────────────────

/// A stream, as the contracts speak of it.
#[verifier::ext_equal]
pub struct StreamModel {
    pub mode: TransferMode,
    pub finished: bool,
    pub ready: bool,
    pub trigger: Seq<u8>,
    pub bandwidth_limit: u64,
    pub reply_sent: bool,
    pub is_stats_request: bool,
    pub fin_seen: bool,
    /// The datagram, or the part of it, that is being sent.
    pub staged: Seq<u8>,
    /// How many bytes of it the transport has taken.
    pub pos: nat,
    /// All bytes that the transport has taken.
    pub wire: Seq<u8>,
    /// The send times of the datagrams begun.
    pub stamps: Seq<u64>,
}

/// The model of a stream whose trigger has not arrived.
pub open spec fn new_stream() -> StreamModel {
    StreamModel {
        mode: TransferMode::Downlink,
        finished: false,
        ready: false,
        trigger: Seq::empty(),
        bandwidth_limit: 0,
        reply_sent: false,
        is_stats_request: false,
        fin_seen: false,
        staged: Seq::empty(),
        pos: 0,
        wire: Seq::empty(),
        stamps: Seq::empty(),
    }
}

/// What has been sent is whole datagrams and the first `pos` bytes of the staged
/// one, never more than `send_size` bytes where that is set. Only the tail of a
/// finite transfer is shorter than a datagram, and a finished transfer has sent
/// exactly `send_size` bytes.
pub open spec fn framed(v: StreamModel, send_size: nat) -> bool {
    &&& v.finished ==> send_size > 0 && v.wire.len() == send_size
    &&& if v.stamps.len() == 0 {
        v.wire.len() == 0 && v.staged.len() == 0 && v.pos == 0
    } else {
        let end = v.wire.len() - v.pos + v.staged.len();
        &&& v.pos <= v.staged.len()
        &&& 0 < v.staged.len() <= DATAGRAM_STRIDE
        &&& v.staged == datagram(v.stamps.last()).subrange(0, v.staged.len() as int)
        &&& v.wire == frames(v.stamps.drop_last()) + v.staged.subrange(0, v.pos as int)
        &&& send_size > 0 ==> end <= send_size
        &&& v.staged.len() < DATAGRAM_STRIDE ==> send_size > 0 && end == send_size
    }
}

/// A receiver of what has been sent reads the send times back, in order; the one
/// of the datagram under way once its eight bytes are out.
pub proof fn sent_stream_reads_back(v: StreamModel, send_size: nat, p: DatagramPosition)
    requires
        framed(v, send_size),
        p.pos == 0,
        p.partial.len() == 0,
    ensures
        stamps_read(p, v.wire) == if v.pos >= STAMP_LEN || v.stamps.len() == 0 {
            v.stamps
        } else {
            v.stamps.drop_last()
        },
{
    if v.stamps.len() > 0 {
        let whole = v.stamps.drop_last();
        let last = v.stamps.last();
        let part = v.staged.subrange(0, v.pos as int);
        framed_stream_reads_back(p, whole);
        lemma_datagram_len(last);
        let q = bytes_read(p, frames(whole));
        reading_in_chunks(p, frames(whole), part);
        if v.pos < STAMP_LEN {
            lemma_header_read(q, part);
            assert(stamps_read(p, v.wire) =~= whole);
        } else {
            let time = crate::wire::u64_bytes(last);
            crate::wire::u64_bytes_read_back(last);
            let rest = part.subrange(STAMP_LEN as int, part.len() as int);
            assert(part =~= time + rest) by {
                assert forall|i: int| 0 <= i < STAMP_LEN implies part[i] == time[i] by {
                    assert(datagram(last)[i] == time[i]);
                }
            }
            reading_in_chunks(q, time, rest);
            lemma_header_read(q, time);
            assert(q.partial + time =~= time);
            lemma_payload_read(bytes_read(q, time), rest);
            assert(stamps_read(q, part) =~= seq![last]);
            assert(stamps_read(p, v.wire) =~= v.stamps);
        }
    } else {
        assert(v.wire =~= frames(Seq::<u64>::empty()));
        framed_stream_reads_back(p, Seq::<u64>::empty());
        assert(v.stamps =~= Seq::<u64>::empty());
    }
}

// ───────────────────────────── sending ─────────────────────────────

/// What the transport or the clock answered.
pub enum PumpEvent {
    /// The stream may be written to.
    Start,
    /// The transport took this many of the bytes offered.
    Written(usize),
    /// The transport takes no bytes now.
    Blocked,
    /// Writing failed.
    Failed,
    /// Whether the rate limit admits the datagram, and the present time in
    /// microseconds since the server started.
    Admission { granted: bool, now_us: u64 },
    /// The end of the stream was handed to the transport.
    FinWritten,
}

/// What to do next.
pub enum PumpAction {
    /// Nothing more for now.
    Return,
    /// Wait until the stream is writable.
    WantWrite,
    /// Offer these bytes to the transport.
    Write { data: Vec<u8> },
    /// Hand the end of the stream to the transport.
    WriteFin,
    /// Ask the rate limit of `limit` bytes per second for `bytes` bytes; without a
    /// limit they are granted.
    Admit { bytes: usize, limit: Option<u64> },
}

/// [`PumpAction`] with the bytes as a sequence.
pub enum PumpActionModel {
    Return,
    WantWrite,
    Write { data: Seq<u8> },
    WriteFin,
    Admit { bytes: int, limit: Option<u64> },
}

impl View for PumpAction {
    type V = PumpActionModel;

    open spec fn view(&self) -> PumpActionModel {
        match self {
            PumpAction::Return => PumpActionModel::Return,
            PumpAction::WantWrite => PumpActionModel::WantWrite,
            PumpAction::Write { data } => PumpActionModel::Write { data: data@ },
            PumpAction::WriteFin => PumpActionModel::WriteFin,
            PumpAction::Admit { bytes, limit } => PumpActionModel::Admit {
                bytes: *bytes as int,
                limit: *limit,
            },
        }
    }
}

/// The length of the next datagram: a stride, or what is left of a finite transfer.
pub open spec fn next_len(v: StreamModel, send_size: nat) -> int {
    if send_size > 0 && send_size - v.wire.len() < DATAGRAM_STRIDE {
        send_size - v.wire.len()
    } else {
        DATAGRAM_STRIDE as int
    }
}

/// The rate limit that a trigger sets: none where it is 0.
pub open spec fn rate_limit(bandwidth: u64) -> Option<u64> {
    if bandwidth > 0 {
        Some(bandwidth)
    } else {
        None
    }
}

/// All of a finite transfer has been sent.
pub open spec fn all_sent(v: StreamModel, send_size: nat) -> bool {
    send_size > 0 && v.wire.len() >= send_size
}

/// What a stream that can go on does next: finish the staged datagram, end the
/// stream, or begin another datagram.
pub open spec fn pump_next(v: StreamModel, send_size: nat) -> PumpActionModel {
    if v.pos < v.staged.len() {
        PumpActionModel::Write { data: v.staged.subrange(v.pos as int, v.staged.len() as int) }
    } else if all_sent(v, send_size) {
        PumpActionModel::WriteFin
    } else {
        PumpActionModel::Admit {
            bytes: next_len(v, send_size),
            limit: rate_limit(v.bandwidth_limit),
        }
    }
}

/// The stream after an event, and what to do next.
pub open spec fn pumped(v: StreamModel, send_size: nat, e: PumpEvent) -> (
    StreamModel,
    PumpActionModel,
) {
    match e {
        PumpEvent::Start => if v.finished || !v.ready {
            (v, PumpActionModel::Return)
        } else {
            // A datagram of which nothing was taken gets a fresh send time.
            let w = if v.wire.len() == 0 {
                StreamModel { staged: Seq::empty(), pos: 0, stamps: Seq::empty(), ..v }
            } else {
                v
            };
            (w, pump_next(w, send_size))
        },
        PumpEvent::Written(n) => {
            let w = StreamModel {
                wire: v.wire + v.staged.subrange(v.pos as int, v.pos + n),
                pos: v.pos + n as nat,
                ..v
            };
            if w.pos < w.staged.len() {
                (w, PumpActionModel::WantWrite)
            } else {
                (w, pump_next(w, send_size))
            }
        },
        PumpEvent::Blocked => (v, PumpActionModel::WantWrite),
        PumpEvent::Failed => (v, PumpActionModel::Return),
        PumpEvent::Admission { granted, now_us } => if granted {
            let w = StreamModel {
                staged: datagram(now_us).subrange(0, next_len(v, send_size)),
                pos: 0,
                stamps: v.stamps.push(now_us),
                ..v
            };
            (w, pump_next(w, send_size))
        } else {
            (v, PumpActionModel::WantWrite)
        },
        PumpEvent::FinWritten => (
            StreamModel { finished: true, ..v },
            PumpActionModel::Return,
        ),
    }
}

/// The event answers what the stream asked for.
pub open spec fn answers(v: StreamModel, send_size: nat, e: PumpEvent) -> bool {
    match e {
        PumpEvent::Written(n) => v.pos + n <= v.staged.len() && v.wire.len() + n <= usize::MAX,
        PumpEvent::Admission { .. } => v.pos == v.staged.len() && !all_sent(v, send_size),
        PumpEvent::FinWritten => v.pos == v.staged.len() && all_sent(v, send_size),
        _ => true,
    }
}

/// Sending keeps the framing, whatever the transport answers.
pub proof fn pumping_keeps_framing(v: StreamModel, send_size: nat, e: PumpEvent)
    requires
        framed(v, send_size),
        answers(v, send_size, e),
    ensures
        framed(pumped(v, send_size, e).0, send_size),
{
    let w = pumped(v, send_size, e).0;
    if v.stamps.len() > 0 {
        lemma_frames_len(v.stamps.drop_last());
    }
    match e {
        PumpEvent::Written(n) => {
            if v.stamps.len() > 0 {
                assert(w.wire =~= frames(w.stamps.drop_last()) + w.staged.subrange(
                    0,
                    w.pos as int,
                ));
            } else {
                assert(w.wire =~= v.wire);
            }
        },
        PumpEvent::Admission { granted, now_us } => {
            if granted {
                lemma_datagram_len(now_us);
                assert(w.stamps.drop_last() =~= v.stamps);
                if v.stamps.len() > 0 {
                    lemma_datagram_len(v.stamps.last());
                    assert(v.staged.len() == DATAGRAM_STRIDE);
                    assert(v.staged =~= datagram(v.stamps.last()));
                    assert(v.staged.subrange(0, v.pos as int) =~= v.staged);
                } else {
                    assert(v.stamps =~= Seq::<u64>::empty());
                }
                assert(w.wire =~= frames(v.stamps) + w.staged.subrange(0, 0));
                assert(w.staged =~= datagram(now_us).subrange(0, w.staged.len() as int));
            }
        },
        _ => {},
    }
}

/// A transfer without a size limit never ends by itself, and one with a limit
/// ends only when exactly that many bytes were taken.
pub proof fn finishes_only_at_send_size(v: StreamModel, send_size: nat, e: PumpEvent)
    requires
        framed(v, send_size),
        answers(v, send_size, e),
        !v.finished,
        pumped(v, send_size, e).0.finished,
    ensures
        send_size > 0,
        pumped(v, send_size, e).0.wire.len() == send_size,
{
    pumping_keeps_framing(v, send_size, e);
}

/// The stream after the events, in order.
pub open spec fn pumped_all(v: StreamModel, send_size: nat, events: Seq<PumpEvent>) -> StreamModel
    decreases events.len(),
{
    if events.len() == 0 {
        v
    } else {
        pumped(pumped_all(v, send_size, events.drop_last()), send_size, events.last()).0
    }
}

/// The clock readings among the events do not fall.
pub open spec fn clock_rises(events: Seq<PumpEvent>) -> bool {
    forall|i: int, j: int|
        0 <= i < j < events.len() ==> ((#[trigger] events[i], #[trigger] events[j]) matches (
            PumpEvent::Admission { now_us: a, .. },
            PumpEvent::Admission { now_us: b, .. },
        ) ==> a <= b)
}

/// The send times do not fall.
pub open spec fn stamps_rise(stamps: Seq<u64>) -> bool {
    forall|i: int, j: int| 0 <= i <= j < stamps.len() ==> stamps[i] <= stamps[j]
}

/// No send time lies behind a bound on the clock readings.
proof fn lemma_stamps_bounded(v: StreamModel, send_size: nat, events: Seq<PumpEvent>, bound: u64)
    requires
        v.stamps.len() == 0,
        forall|i: int|
            0 <= i < events.len() ==> ((#[trigger] events[i]) matches PumpEvent::Admission {
                now_us,
                ..
            } ==> now_us <= bound),
    ensures
        forall|k: int|
            0 <= k < pumped_all(v, send_size, events).stamps.len() ==> #[trigger] pumped_all(
                v,
                send_size,
                events,
            ).stamps[k] <= bound,
    decreases events.len(),
{
    if events.len() > 0 {
        let front = events.drop_last();
        assert forall|i: int| 0 <= i < front.len() implies ((#[trigger] front[i])
            matches PumpEvent::Admission { now_us, .. } ==> now_us <= bound) by {
            assert(front[i] == events[i]);
        }
        lemma_stamps_bounded(v, send_size, front, bound);
        assert(events[events.len() - 1] == events.last());
    }
}

/// The send times of a stream never fall while the clock does not, whatever the
/// transport answers.
pub proof fn send_times_never_fall(v: StreamModel, send_size: nat, events: Seq<PumpEvent>)
    requires
        v.stamps.len() == 0,
        clock_rises(events),
    ensures
        stamps_rise(pumped_all(v, send_size, events).stamps),
    decreases events.len(),
{
    if events.len() > 0 {
        let front = events.drop_last();
        let last = events.len() - 1;
        assert forall|i: int, j: int| 0 <= i < j < front.len() implies ((
            #[trigger] front[i],
            #[trigger] front[j],
        ) matches (
            PumpEvent::Admission { now_us: a, .. },
            PumpEvent::Admission { now_us: b, .. },
        ) ==> a <= b) by {
            assert(front[i] == events[i] && front[j] == events[j]);
        }
        send_times_never_fall(v, send_size, front);
        if let PumpEvent::Admission { now_us, .. } = events.last() {
            assert forall|i: int| 0 <= i < front.len() implies ((#[trigger] front[i])
                matches PumpEvent::Admission { now_us: a, .. } ==> a <= now_us) by {
                assert(front[i] == events[i] && events[last] == events.last());
            }
            lemma_stamps_bounded(v, send_size, front, now_us);
        }
    }
}

/// Sending state of one stream.
pub struct StreamSendState {
    pub mode: TransferMode,
    /// Bytes that the transport has taken.
    pub bytes_sent: usize,
    pub finished: bool,
    /// Set once the client's trigger has been received.
    pub ready: bool,
    /// The trigger bytes received so far.
    pub trigger_buf: Vec<u8>,
    /// Rate limit in bytes per second (0 means unlimited).
    pub bandwidth_limit: u64,
    /// Set once the statistics reply is due or written.
    pub reply_sent: bool,
    /// Set for a stream on which the client asks for statistics.
    pub is_stats_request: bool,
    /// Set once the end of the incoming stream was seen in the present drain.
    pub fin_seen: bool,
    /// The datagram being sent.
    pub dg_buf: Vec<u8>,
    /// How many bytes of `dg_buf` the transport has taken.
    pub dg_buf_pos: usize,
    /// All bytes that the transport has taken.
    pub wire: Ghost<Seq<u8>>,
    /// The send times of the datagrams begun.
    pub stamps: Ghost<Seq<u64>>,
}

impl View for StreamSendState {
    type V = StreamModel;

    open spec fn view(&self) -> StreamModel {
        StreamModel {
            mode: self.mode,
            finished: self.finished,
            ready: self.ready,
            trigger: self.trigger_buf@,
            bandwidth_limit: self.bandwidth_limit,
            reply_sent: self.reply_sent,
            is_stats_request: self.is_stats_request,
            fin_seen: self.fin_seen,
            staged: self.dg_buf@,
            pos: self.dg_buf_pos as nat,
            wire: self.wire@,
            stamps: self.stamps@,
        }
    }
}

impl StreamSendState {
    /// The counters agree with what was sent, and what was sent is framed.
    pub open spec fn wf(self, send_size: usize) -> bool {
        &&& self.bytes_sent == self.wire@.len()
        &&& framed(self@, send_size as nat)
    }

    /// A stream whose trigger has not arrived.
    pub fn new() -> (r: Self)
        ensures
            r@ == new_stream(),
            forall|send_size: usize| r.wf(send_size),
    {
        StreamSendState {
            mode: TransferMode::Downlink,
            bytes_sent: 0,
            finished: false,
            ready: false,
            trigger_buf: Vec::new(),
            bandwidth_limit: 0,
            reply_sent: false,
            is_stats_request: false,
            fin_seen: false,
            dg_buf: Vec::new(),
            dg_buf_pos: 0,
            wire: Ghost(Seq::empty()),
            stamps: Ghost(Seq::empty()),
        }
    }

    fn next_action(&self, send_size: usize) -> (a: PumpAction)
        requires
            self.wf(send_size),
        ensures
            a@ == pump_next(self@, send_size as nat),
    {
        if self.dg_buf_pos < self.dg_buf.len() {
            let mut data: Vec<u8> = Vec::new();
            let mut i: usize = self.dg_buf_pos;
            while i < self.dg_buf.len()
                invariant
                    self.dg_buf_pos <= i <= self.dg_buf.len(),
                    data@ == self.dg_buf@.subrange(self.dg_buf_pos as int, i as int),
                decreases self.dg_buf.len() - i,
            {
                data.push(self.dg_buf[i]);
                i += 1;
                assert(data@ =~= self.dg_buf@.subrange(self.dg_buf_pos as int, i as int));
            }
            PumpAction::Write { data }
        } else if send_size > 0 && self.bytes_sent >= send_size {
            PumpAction::WriteFin
        } else {
            let limit = if self.bandwidth_limit > 0 {
                Some(self.bandwidth_limit)
            } else {
                None
            };
            PumpAction::Admit { bytes: self.next_datagram_len(send_size), limit }
        }
    }

    fn next_datagram_len(&self, send_size: usize) -> (n: usize)
        requires
            self.wf(send_size),
            !all_sent(self@, send_size as nat),
        ensures
            n == next_len(self@, send_size as nat),
            0 < n <= DATAGRAM_STRIDE,
    {
        if send_size > 0 && send_size - self.bytes_sent < DATAGRAM_STRIDE {
            send_size - self.bytes_sent
        } else {
            DATAGRAM_STRIDE
        }
    }

    /// Takes an event in and says what to do next.
    pub fn pump(&mut self, send_size: usize, event: PumpEvent) -> (a: PumpAction)
        requires
            old(self).wf(send_size),
            answers(old(self)@, send_size as nat, event),
        ensures
            final(self).wf(send_size),
            (final(self)@, a@) == pumped(old(self)@, send_size as nat, event),
    {
        let ghost before = self@;
        proof {
            pumping_keeps_framing(before, send_size as nat, event);
        }
        match event {
            PumpEvent::Start => {
                if self.finished || !self.ready {
                    return PumpAction::Return;
                }
                if self.bytes_sent == 0 {
                    self.dg_buf.clear();
                    self.dg_buf_pos = 0;
                    self.stamps = Ghost(Seq::empty());
                }
                assert(self@ =~= pumped(before, send_size as nat, event).0);
                self.next_action(send_size)
            },
            PumpEvent::Written(n) => {
                self.wire = Ghost(
                    self.wire@ + self.dg_buf@.subrange(
                        self.dg_buf_pos as int,
                        self.dg_buf_pos + n,
                    ),
                );
                self.bytes_sent += n;
                self.dg_buf_pos += n;
                assert(self@ =~= pumped(before, send_size as nat, event).0);
                if self.dg_buf_pos < self.dg_buf.len() {
                    PumpAction::WantWrite
                } else {
                    self.next_action(send_size)
                }
            },
            PumpEvent::Blocked => PumpAction::WantWrite,
            PumpEvent::Failed => PumpAction::Return,
            PumpEvent::Admission { granted, now_us } => {
                if !granted {
                    return PumpAction::WantWrite;
                }
                let len: usize = self.next_datagram_len(send_size);
                self.dg_buf = build_datagram(now_us, len);
                self.dg_buf_pos = 0;
                self.stamps = Ghost(self.stamps@.push(now_us));
                assert(self@ =~= pumped(before, send_size as nat, event).0);
                self.next_action(send_size)
            },
            PumpEvent::FinWritten => {
                self.finished = true;
                PumpAction::Return
            },
        }
    }
}

// ───────────────────────────── a connection ─────────────────────────────

/// What a read on a stream that waits for its trigger led to.
pub enum TriggerStep {
    /// The stream does not wait for a trigger.
    NotWaiting,
    /// The trigger is complete.
    Ready,
    /// More bytes are needed, and may be there.
    ReadAgain,
    /// More bytes are needed, and none are there now.
    Wait,
}

/// The stream after a read of `data` on it, and what the read led to.
pub open spec fn trigger_read(v: StreamModel, data: Seq<u8>, fin: bool) -> (
    StreamModel,
    TriggerStep,
) {
    if v.ready {
        (v, TriggerStep::NotWaiting)
    } else {
        let w = StreamModel { trigger: v.trigger + data, ..v };
        match trigger_decision(w.trigger, fin) {
            Some(TriggerDecision::StatsRequest) => (
                StreamModel { is_stats_request: true, ready: true, ..w },
                TriggerStep::Ready,
            ),
            Some(TriggerDecision::Transfer { mode, bandwidth }) => (
                StreamModel { mode, bandwidth_limit: bandwidth, ready: true, ..w },
                TriggerStep::Ready,
            ),
            None => (
                w,
                if data.len() == 0 {
                    TriggerStep::Wait
                } else {
                    TriggerStep::ReadAgain
                },
            ),
        }
    }
}

/// A trigger is taken once: whatever arrives after it is complete, the stream
/// stays as it is.
pub proof fn trigger_is_taken_once(
    v: StreamModel,
    data: Seq<u8>,
    fin: bool,
    more: Seq<u8>,
    more_fin: bool,
)
    requires
        trigger_read(v, data, fin).1 == TriggerStep::Ready,
    ensures
        trigger_read(trigger_read(v, data, fin).0, more, more_fin) == (
            trigger_read(v, data, fin).0,
            TriggerStep::NotWaiting,
        ),
{
}

/// What reading an uplink stream gave.
pub enum DrainEvent {
    /// The stream may be read.
    Start,
    /// Bytes that arrived at `recv_us` microseconds, and whether the stream ends
    /// with them.
    Read { data: Vec<u8>, fin: bool, recv_us: u64 },
    /// Nothing to read now.
    Blocked,
    /// Reading failed.
    Failed,
}

/// [`DrainEvent`] with the bytes as a sequence.
pub enum DrainEventModel {
    Start,
    Read { data: Seq<u8>, fin: bool, recv_us: u64 },
    Blocked,
    Failed,
}

impl View for DrainEvent {
    type V = DrainEventModel;

    open spec fn view(&self) -> DrainEventModel {
        match self {
            DrainEvent::Start => DrainEventModel::Start,
            DrainEvent::Read { data, fin, recv_us } => DrainEventModel::Read {
                data: data@,
                fin: *fin,
                recv_us: *recv_us,
            },
            DrainEvent::Blocked => DrainEventModel::Blocked,
            DrainEvent::Failed => DrainEventModel::Failed,
        }
    }
}

/// What to do next with an uplink stream.
#[derive(Debug, PartialEq, Eq, Structural)]
pub enum DrainAction {
    /// Nothing more for now.
    Return,
    /// Read again.
    Read,
    /// Write the statistics reply with this datagram count, and end the stream.
    Reply { recv_count: u64 },
}

/// The stream takes uplink data.
pub open spec fn is_draining(v: StreamModel) -> bool {
    v.ready && v.mode == TransferMode::Uplink
}

/// Reading has come to a stop: the reply is due where the end was seen, once.
pub open spec fn drain_stop(v: StreamModel, received: u64) -> (StreamModel, DrainAction) {
    if v.fin_seen && !v.reply_sent {
        (StreamModel { reply_sent: true, ..v }, DrainAction::Reply { recv_count: received })
    } else {
        (v, DrainAction::Return)
    }
}

/// The stream after an event, and what to do next; `received` counts the
/// complete datagrams after the event.
pub open spec fn drained(v: StreamModel, e: DrainEventModel, received: u64) -> (
    StreamModel,
    DrainAction,
) {
    if !is_draining(v) {
        (v, DrainAction::Return)
    } else {
        match e {
            DrainEventModel::Start => (StreamModel { fin_seen: false, ..v }, DrainAction::Read),
            DrainEventModel::Read { data, fin, recv_us } => {
                let w = StreamModel { fin_seen: v.fin_seen || fin, ..v };
                if data.len() == 0 {
                    drain_stop(w, received)
                } else {
                    (w, DrainAction::Read)
                }
            },
            _ => drain_stop(v, received),
        }
    }
}

/// The uplink reply is sent at most once on a stream: once it was due, no event
/// makes it due again.
pub proof fn uplink_reply_is_sent_once(v: StreamModel, e: DrainEventModel, received: u64)
    ensures
        drained(v, e, received).1 is Reply ==> !v.reply_sent && drained(
            v,
            e,
            received,
        ).0.reply_sent,
        v.reply_sent ==> drained(v, e, received).0.reply_sent,
{
}

/// The framing does not depend on what is received.
proof fn lemma_framed_by_sent(v: StreamModel, w: StreamModel, send_size: nat)
    requires
        framed(v, send_size),
        w.finished == v.finished,
        w.staged == v.staged,
        w.pos == v.pos,
        w.wire == v.wire,
        w.stamps == v.stamps,
    ensures
        framed(w, send_size),
{
}

/// One connection of the server.
pub struct ConnectionHandler {
    /// Total bytes to send per stream (0 means unlimited).
    pub send_size: usize,
    pub streams: HashMap<u64, StreamSendState>,
    /// Sent bytes of the connection at the previous report.
    pub prev_bytes_sent: u64,
    /// Received bytes of the connection at the previous report.
    pub prev_bytes_recv: u64,
    /// The receiving side of the datagram framing.
    pub reader: DatagramReader,
}

/// [`ConnectionHandler`], as the contracts speak of it.
#[verifier::ext_equal]
pub struct ConnectionModel {
    pub send_size: usize,
    pub streams: Map<u64, StreamModel>,
    pub prev_bytes_sent: u64,
    pub prev_bytes_recv: u64,
    pub position: DatagramPosition,
    pub last: Option<(u64, u64)>,
}

/// The model of a connection without streams.
pub open spec fn new_connection(send_size: usize) -> ConnectionModel {
    ConnectionModel {
        send_size,
        streams: Map::empty(),
        prev_bytes_sent: 0,
        prev_bytes_recv: 0,
        position: DatagramPosition { pos: 0, partial: Seq::empty(), received: 0 },
        last: None,
    }
}

impl View for ConnectionHandler {
    type V = ConnectionModel;

    open spec fn view(&self) -> ConnectionModel {
        ConnectionModel {
            send_size: self.send_size,
            streams: self.model(),
            prev_bytes_sent: self.prev_bytes_sent,
            prev_bytes_recv: self.prev_bytes_recv,
            position: self.reader.position(),
            last: self.reader.last,
        }
    }
}

impl ConnectionHandler {
    /// The streams by their models.
    pub open spec fn model(self) -> Map<u64, StreamModel> {
        self.streams@.map_values(|s: StreamSendState| s@)
    }

    /// Every stream, and the reader, is well-formed.
    pub open spec fn wf(self) -> bool {
        &&& forall|id: u64| #[trigger]
            self.streams@.contains_key(id) ==> self.streams@[id].wf(self.send_size)
        &&& self.reader.wf()
    }

    /// Everything but the streams is as in `other`.
    pub open spec fn same_but_streams(self, other: Self) -> bool {
        &&& self.send_size == other.send_size
        &&& self.prev_bytes_sent == other.prev_bytes_sent
        &&& self.prev_bytes_recv == other.prev_bytes_recv
        &&& self.reader == other.reader
    }

    /// A connection without streams.
    pub fn new(send_size: usize) -> (r: Self)
        ensures
            r.wf(),
            r@ == new_connection(send_size),
    {
        let r = ConnectionHandler {
            send_size,
            streams: HashMap::new(),
            prev_bytes_sent: 0,
            prev_bytes_recv: 0,
            reader: DatagramReader::new(),
        };
        assert(r.model() =~= Map::<u64, StreamModel>::empty());
        r
    }

    /// Registers a new stream, which then waits for its trigger.
    pub fn register_stream(&mut self, stream_id: u64)
        requires
            old(self).wf(),
        ensures
            final(self).wf(),
            final(self).model() == old(self).model().insert(stream_id, new_stream()),
            final(self).same_but_streams(*old(self)),
    {
        self.streams.insert(stream_id, StreamSendState::new());
        assert(self.model() =~= old(self).model().insert(stream_id, new_stream()));
    }

    /// Forgets a stream.
    pub fn remove_stream(&mut self, stream_id: u64)
        requires
            old(self).wf(),
        ensures
            final(self).wf(),
            final(self).model() == old(self).model().remove(stream_id),
            final(self).same_but_streams(*old(self)),
    {
        self.streams.remove(&stream_id);
        assert(self.model() =~= old(self).model().remove(stream_id));
    }

    /// Takes in bytes read on a stream that waits for its trigger.
    pub fn parse_trigger(&mut self, stream_id: u64, data: &[u8], fin: bool) -> (r: TriggerStep)
        requires
            old(self).wf(),
        ensures
            final(self).wf(),
            final(self).same_but_streams(*old(self)),
            old(self).model().contains_key(stream_id) ==> (
                final(self).model() == old(self).model().insert(
                    stream_id,
                    trigger_read(old(self).model()[stream_id], data@, fin).0,
                ) && r == trigger_read(old(self).model()[stream_id], data@, fin).1),
            !old(self).model().contains_key(stream_id) ==> (
                final(self).model() == old(self).model() && r == TriggerStep::NotWaiting),
    {
        match map_get_mut(&mut self.streams, stream_id) {
            Some(state) => {
                let ghost v = state@;
                let r = if state.ready {
                    TriggerStep::NotWaiting
                } else {
                    state.trigger_buf.extend_from_slice(data);
                    assert(state.trigger_buf@ =~= v.trigger + data@);
                    match decode_trigger_buf(state.trigger_buf.as_slice(), fin) {
                        Some(TriggerDecision::StatsRequest) => {
                            state.is_stats_request = true;
                            state.ready = true;
                            TriggerStep::Ready
                        },
                        Some(TriggerDecision::Transfer { mode, bandwidth }) => {
                            state.mode = mode;
                            state.bandwidth_limit = bandwidth;
                            state.ready = true;
                            TriggerStep::Ready
                        },
                        None => if data.len() == 0 {
                            TriggerStep::Wait
                        } else {
                            TriggerStep::ReadAgain
                        },
                    }
                };
                let ghost w = state@;
                proof {
                    lemma_framed_by_sent(v, w, self.send_size as nat);
                    assert(w =~= trigger_read(v, data@, fin).0);
                    assert(self.model() =~= old(self).model().insert(stream_id, w));
                }
                r
            },
            None => {
                assert(self.model() =~= old(self).model());
                TriggerStep::NotWaiting
            },
        }
    }

    /// Takes in what became of the last action on a stream that sends, and says
    /// what to do next.
    pub fn pump(&mut self, stream_id: u64, event: PumpEvent) -> (a: PumpAction)
        requires
            old(self).wf(),
            old(self).model().contains_key(stream_id) ==> answers(
                old(self).model()[stream_id],
                old(self).send_size as nat,
                event,
            ),
        ensures
            final(self).wf(),
            final(self).same_but_streams(*old(self)),
            old(self).model().contains_key(stream_id) ==> (
                final(self).model() == old(self).model().insert(
                    stream_id,
                    pumped(old(self).model()[stream_id], old(self).send_size as nat, event).0,
                ) && a@ == pumped(
                    old(self).model()[stream_id],
                    old(self).send_size as nat,
                    event,
                ).1),
            !old(self).model().contains_key(stream_id) ==> (
                final(self).model() == old(self).model() && a@ == PumpActionModel::Return),
    {
        let send_size: usize = self.send_size;
        match map_get_mut(&mut self.streams, stream_id) {
            Some(state) => {
                let a = state.pump(send_size, event);
                let ghost w = state@;
                assert(self.model() =~= old(self).model().insert(stream_id, w));
                a
            },
            None => {
                assert(self.model() =~= old(self).model());
                PumpAction::Return
            },
        }
    }

    /// Takes in what became of the last action on a stream that receives; returns
    /// the delay variations of the datagrams that arrived, in microseconds, and
    /// what to do next.
    pub fn drain_uplink(&mut self, stream_id: u64, event: DrainEvent) -> (r: (
        Vec<u64>,
        DrainAction,
    ))
        requires
            old(self).wf(),
            event matches DrainEvent::Read { data, .. } ==> (
                old(self).reader.app_datagrams_received + data@.len() <= u64::MAX),
        ensures
            final(self).wf(),
            final(self).send_size == old(self).send_size,
            final(self).prev_bytes_sent == old(self).prev_bytes_sent,
            final(self).prev_bytes_recv == old(self).prev_bytes_recv,
            ({
                let draining = old(self).model().contains_key(stream_id) && is_draining(
                    old(self).model()[stream_id],
                );
                let (data, recv_us) = match event@ {
                    DrainEventModel::Read { data, recv_us, .. } if draining => (data, recv_us),
                    _ => (Seq::<u8>::empty(), 0u64),
                };
                let stamps = stamps_read(old(self).reader.position(), data);
                &&& final(self).reader.position() == bytes_read(old(self).reader.position(), data)
                &&& final(self).reader.last == last_seen(old(self).reader.last, stamps, recv_us)
                &&& r.0@ == variations(old(self).reader.last, stamps, recv_us)
            }),
            old(self).model().contains_key(stream_id) ==> (
                final(self).model() == old(self).model().insert(
                    stream_id,
                    drained(
                        old(self).model()[stream_id],
                        event@,
                        final(self).reader.app_datagrams_received,
                    ).0,
                ) && r.1 == drained(
                    old(self).model()[stream_id],
                    event@,
                    final(self).reader.app_datagrams_received,
                ).1),
            !old(self).model().contains_key(stream_id) ==> (
                final(self).model() == old(self).model() && r.1 == DrainAction::Return),
    {
        let ghost before = self.model();
        match map_get_mut(&mut self.streams, stream_id) {
            Some(state) => {
                let ghost v = state@;
                if !state.ready || state.mode != TransferMode::Uplink {
                    assert(self.model() =~= before.insert(stream_id, v));
                    return (Vec::new(), DrainAction::Return);
                }
                let mut found: Vec<u64> = Vec::new();
                let mut stop: bool = true;
                match event {
                    DrainEvent::Start => {
                        state.fin_seen = false;
                        stop = false;
                    },
                    DrainEvent::Read { data, fin, recv_us } => {
                        if fin {
                            state.fin_seen = true;
                        }
                        found = self.reader.feed(data.as_slice(), recv_us);
                        stop = data.len() == 0;
                    },
                    DrainEvent::Blocked => {},
                    DrainEvent::Failed => {},
                }
                let action = if !stop {
                    DrainAction::Read
                } else if state.fin_seen && !state.reply_sent {
                    state.reply_sent = true;
                    DrainAction::Reply { recv_count: self.reader.app_datagrams_received }
                } else {
                    DrainAction::Return
                };
                let ghost w = state@;
                proof {
                    lemma_framed_by_sent(v, w, self.send_size as nat);
                    assert(self.model() =~= before.insert(stream_id, w));
                }
                (found, action)
            },
            None => {
                assert(self.model() =~= before);
                (Vec::new(), DrainAction::Return)
            },
        }
    }

    /// Whether the stream sends to the server.
    pub fn is_uplink(&self, stream_id: u64) -> (r: bool)
        ensures
            r == (self.model().contains_key(stream_id) && self.model()[stream_id].mode
                == TransferMode::Uplink),
    {
        match self.streams.get(&stream_id) {
            Some(s) => s.mode == TransferMode::Uplink,
            None => false,
        }
    }

    /// Whether the client asks for statistics on the stream.
    pub fn is_stats_request(&self, stream_id: u64) -> (r: bool)
        ensures
            r == (self.model().contains_key(stream_id)
                && self.model()[stream_id].is_stats_request),
    {
        match self.streams.get(&stream_id) {
            Some(s) => s.is_stats_request,
            None => false,
        }
    }
}

} // verus!
