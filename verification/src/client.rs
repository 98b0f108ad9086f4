//! The benchmark client: what each worker counts, when it connects and exits,
//! and what it reports.

use crate::clock::{elapsed, elapsed_ns, NANOS_PER_SEC};
use crate::maps::{fx_get, fx_get_mut, fx_insert, fx_keys, fx_new, fx_remove};
use crate::numerals::{decimal, denotes_float, is_float_text, push_decimal};
use crate::stats::{accum_conn_stats, no_stats, stats_fit, stats_sum, ConnectionStats};
use crate::text::{chars_of, is_text, slice_chars, string_of, texts, trim, trimmed};
use crate::wire::{
    mode_byte, push_u64_le, trigger_decision, trigger_reads_back, u64_bytes, TransferMode,
    TriggerDecision,
};
use rustc_hash::FxHashMap;
use vstd::prelude::*;
use vstd::string::StringExecFns;

verus! {

// ───────────────────────────── bandwidth ─────────────────────────────

/// A bandwidth as it is written: zero, or a number times a unit.
pub enum Bandwidth {
    /// No limit.
    Zero,
    /// `number` times `multiplier` bits per second.
    Scaled { number: String, multiplier: u64 },
}

/// [`Bandwidth`] with the number as a text.
pub enum BandwidthModel {
    Zero,
    Scaled { number: Seq<char>, multiplier: u64 },
}

impl View for Bandwidth {
    type V = BandwidthModel;

    open spec fn view(&self) -> BandwidthModel {
        match self {
            Bandwidth::Zero => BandwidthModel::Zero,
            Bandwidth::Scaled { number, multiplier } => BandwidthModel::Scaled {
                number: number@,
                multiplier: *multiplier,
            },
        }
    }
}

/// The multiplier of a unit letter.
pub open spec fn unit(c: char) -> Option<u64> {
    if c == 'G' || c == 'g' {
        Some(1_000_000_000)
    } else if c == 'M' || c == 'm' {
        Some(1_000_000)
    } else if c == 'K' || c == 'k' {
        Some(1_000)
    } else {
        None
    }
}

/// The number and the multiplier of a trimmed bandwidth.
pub open spec fn scaled(t: Seq<char>) -> (Seq<char>, u64) {
    if t.len() > 0 && unit(t.last()) is Some {
        (t.drop_last(), unit(t.last()).unwrap())
    } else {
        (t, 1)
    }
}

/// What a bandwidth text means, or `None` where its number is none.
pub open spec fn bandwidth(s: Seq<char>) -> Option<BandwidthModel> {
    let t = trimmed(s);
    let (number, multiplier) = scaled(t);
    if t == "0"@ {
        Some(BandwidthModel::Zero)
    } else if is_float_text(number) {
        Some(BandwidthModel::Scaled { number, multiplier })
    } else {
        None
    }
}

fn unit_of(c: char) -> (r: Option<u64>)
    ensures
        r == unit(c),
{
    if c == 'G' || c == 'g' {
        Some(1_000_000_000)
    } else if c == 'M' || c == 'm' {
        Some(1_000_000)
    } else if c == 'K' || c == 'k' {
        Some(1_000)
    } else {
        None
    }
}

/// Reads a bandwidth like `500M`, `1G` or `2.5G`, in bits per second with an
/// optional SI suffix. The error is a message.
pub fn parse_bandwidth_cli(s: &str) -> (r: Result<Bandwidth, String>)
    ensures
        match r {
            Ok(b) => bandwidth(s@) == Some(b@),
            Err(e) => bandwidth(s@) is None && e@ == "invalid bandwidth '"@ + trimmed(s@) + "'"@,
        },
{
    let t = trim(&chars_of(s));
    if is_text(&t, "0") {
        return Ok(Bandwidth::Zero);
    }
    let mut end: usize = t.len();
    let mut multiplier: u64 = 1;
    if t.len() > 0 {
        if let Some(m) = unit_of(t[t.len() - 1]) {
            end = t.len() - 1;
            multiplier = m;
        }
    }
    let number = slice_chars(&t, 0, end);
    assert(number@ =~= scaled(t@).0);
    if denotes_float(&number) {
        Ok(Bandwidth::Scaled { number: string_of(&number), multiplier })
    } else {
        let mut e = String::from_str("invalid bandwidth '");
        let text = string_of(&t);
        e.append(text.as_str());
        e.append("'");
        Err(e)
    }
}

/// Bits per second in bytes per second.
pub fn bandwidth_bytes(bits_per_sec: u64) -> (r: u64)
    ensures
        r == bits_per_sec / 8,
{
    bits_per_sec / 8
}

// ───────────────────────────── workers ─────────────────────────────

/// What the client's workers counted together.
pub struct ClientContext {
    pub session: Option<Vec<u8>>,
    pub bytes_received: u64,
    pub conn_total: u64,
    pub conn_handshake_success: u64,
    pub conn_finish: u64,
    pub conn_finish_success: u64,
    pub conn_finish_failed: u64,
    /// When the last worker ended.
    pub end_time: Option<u64>,
    pub conn_stats: ConnectionStats,
}

/// [`ClientContext`] with its session as a sequence.
#[verifier::ext_equal]
pub struct ClientModel {
    pub session: Option<Seq<u8>>,
    pub bytes_received: int,
    pub conn_total: int,
    pub conn_handshake_success: int,
    pub conn_finish: int,
    pub conn_finish_success: int,
    pub conn_finish_failed: int,
    pub end_time: Option<u64>,
    pub conn_stats: ConnectionStats,
}

/// The bytes of an optional session.
pub open spec fn opt_bytes(s: Option<Vec<u8>>) -> Option<Seq<u8>> {
    match s {
        Some(v) => Some(v@),
        None => None,
    }
}

impl View for ClientContext {
    type V = ClientModel;

    open spec fn view(&self) -> ClientModel {
        ClientModel {
            session: opt_bytes(self.session),
            bytes_received: self.bytes_received as int,
            conn_total: self.conn_total as int,
            conn_handshake_success: self.conn_handshake_success as int,
            conn_finish: self.conn_finish as int,
            conn_finish_success: self.conn_finish_success as int,
            conn_finish_failed: self.conn_finish_failed as int,
            end_time: self.end_time,
            conn_stats: self.conn_stats,
        }
    }
}

impl ClientContext {
    /// Nothing counted.
    pub fn new() -> (r: Self)
        ensures
            r@ == (ClientModel {
                session: None,
                bytes_received: 0,
                conn_total: 0,
                conn_handshake_success: 0,
                conn_finish: 0,
                conn_finish_success: 0,
                conn_finish_failed: 0,
                end_time: None,
                conn_stats: no_stats(),
            }),
    {
        ClientContext {
            session: None,
            bytes_received: 0,
            conn_total: 0,
            conn_handshake_success: 0,
            conn_finish: 0,
            conn_finish_success: 0,
            conn_finish_failed: 0,
            end_time: None,
            conn_stats: ConnectionStats::default(),
        }
    }
}

/// The receiving side of one connection.
#[derive(Debug, Clone, Copy, PartialEq, Eq, Structural)]
pub struct DataReceiver {
    pub bytes_received: u64,
    pub streams_opened: u64,
    pub streams_finished: u64,
}

/// Nothing received.
pub open spec fn new_receiver() -> DataReceiver {
    DataReceiver { bytes_received: 0, streams_opened: 0, streams_finished: 0 }
}

impl DataReceiver {
    /// Nothing received.
    pub fn new() -> (r: Self)
        ensures
            r == new_receiver(),
    {
        DataReceiver { bytes_received: 0, streams_opened: 0, streams_finished: 0 }
    }
}

/// What a worker is told.
#[derive(Debug, Clone, Copy)]
pub struct WorkerOptions {
    pub streams_per_conn: u64,
    /// Rate limit in bytes per second (0 means unlimited).
    pub bandwidth: u64,
    pub max_concurrent_conns: u32,
    /// A worker that was never connected gives up after this many failures.
    pub connection_failure_threshold: u64,
    /// Seconds to run (0 means until the transfers end).
    pub duration: u64,
}

/// One worker of the client.
pub struct WorkerContext {
    pub option: WorkerOptions,
    pub session: Option<Vec<u8>>,
    pub bytes_received: u64,
    pub conn_total: u64,
    pub conn_handshake_success: u64,
    pub conn_finish: u64,
    pub conn_finish_success: u64,
    pub conn_finish_failed: u64,
    pub concurrent_conns: u32,
    pub conn_stats: ConnectionStats,
    /// A connection was established once.
    pub connected: bool,
    pub receivers: FxHashMap<u64, DataReceiver>,
    pub start_time: u64,
    pub end_time: Option<u64>,
}

/// [`WorkerContext`], as the contracts speak of it.
#[verifier::ext_equal]
pub struct WorkerModel {
    pub option: WorkerOptions,
    pub session: Option<Seq<u8>>,
    pub bytes_received: int,
    pub conn_total: int,
    pub conn_handshake_success: int,
    pub conn_finish: int,
    pub conn_finish_success: int,
    pub conn_finish_failed: int,
    pub concurrent_conns: int,
    pub conn_stats: ConnectionStats,
    pub connected: bool,
    pub receivers: Map<u64, DataReceiver>,
    pub start_time: u64,
    pub end_time: Option<u64>,
}

impl View for WorkerContext {
    type V = WorkerModel;

    open spec fn view(&self) -> WorkerModel {
        WorkerModel {
            option: self.option,
            session: opt_bytes(self.session),
            bytes_received: self.bytes_received as int,
            conn_total: self.conn_total as int,
            conn_handshake_success: self.conn_handshake_success as int,
            conn_finish: self.conn_finish as int,
            conn_finish_success: self.conn_finish_success as int,
            conn_finish_failed: self.conn_finish_failed as int,
            concurrent_conns: self.concurrent_conns as int,
            conn_stats: self.conn_stats,
            connected: self.connected,
            receivers: self.receivers@,
            start_time: self.start_time,
            end_time: self.end_time,
        }
    }
}

/// The worker ends: it was told to, it could not connect, or its time is over.
pub open spec fn exits(m: WorkerModel, terminated: bool, now: u64) -> bool {
    ||| terminated
    ||| !m.connected && m.conn_finish_failed >= m.option.connection_failure_threshold
    ||| m.option.duration > 0 && elapsed(m.start_time, now) / NANOS_PER_SEC >= m.option.duration
}

/// What a worker does in a round.
pub enum WorkerAction {
    /// Close these connections; the worker is finished where there are none.
    Close { conns: Vec<u64> },
    /// Open a connection.
    Connect,
    /// Wait for events.
    Wait,
}

/// How a connection ended.
#[derive(Debug, Clone, Copy, PartialEq, Eq, Structural)]
pub enum CloseCause {
    /// The client closed it.
    Local,
    /// The server closed it.
    Peer,
    /// It failed.
    Failure,
}

/// What became of the attempt to open a trigger stream.
#[derive(Debug, Clone, Copy, PartialEq, Eq, Structural)]
pub enum TriggerOutcome {
    Written,
    /// The peer admits no more streams.
    LimitReached,
    Failed,
}

/// The receiver of a connection after an attempt to open a trigger stream.
pub open spec fn trigger_tried(r: DataReceiver, outcome: Option<TriggerOutcome>) -> DataReceiver {
    if outcome == Some(TriggerOutcome::Written) {
        DataReceiver { streams_opened: (r.streams_opened + 1) as u64, ..r }
    } else {
        r
    }
}

/// The next trigger stream to open: client-initiated bidirectional streams have
/// the ids 0, 4, 8 and so on. There is none once the peer's limit was reached or
/// all attempts were made.
pub open spec fn trigger_next(
    r: DataReceiver,
    attempts: u64,
    streams: u64,
    outcome: Option<TriggerOutcome>,
) -> Option<u64> {
    if outcome == Some(TriggerOutcome::LimitReached) || attempts >= streams {
        None
    } else {
        Some((r.streams_opened * 4) as u64)
    }
}

/// The message that asks the server to send at the rate.
pub open spec fn trigger_message(bandwidth: u64) -> Seq<u8> {
    seq![mode_byte(TransferMode::Downlink)] + u64_bytes(bandwidth)
}

/// The server learns from a client's trigger how fast to send.
pub proof fn server_learns_rate(bandwidth: u64)
    ensures
        trigger_decision(trigger_message(bandwidth), true) == Some(
            TriggerDecision::Transfer { mode: TransferMode::Downlink, bandwidth },
        ),
{
    trigger_reads_back(TransferMode::Downlink, bandwidth, true);
}

/// All streams of the connection are finished.
pub open spec fn all_finished(r: DataReceiver) -> bool {
    r.streams_finished >= r.streams_opened && r.streams_opened > 0
}

/// The connection after one more of its streams is finished.
pub open spec fn one_finished(r: DataReceiver) -> DataReceiver {
    DataReceiver { streams_finished: (r.streams_finished + 1) as u64, ..r }
}

/// The worker opens another connection: fewer are open than it may have.
pub open spec fn opens_another(m: WorkerModel) -> bool {
    m.concurrent_conns < m.option.max_concurrent_conns
}

/// The worker when it ends; the first time counts.
pub open spec fn worker_ended(m: WorkerModel, now: u64) -> WorkerModel {
    WorkerModel {
        end_time: match m.end_time {
            Some(t) => Some(t),
            None => Some(now),
        },
        ..m
    }
}

/// The worker after it opened a connection.
pub open spec fn conn_opened(m: WorkerModel) -> WorkerModel {
    WorkerModel {
        concurrent_conns: m.concurrent_conns + 1,
        conn_total: m.conn_total + 1,
        ..m
    }
}

/// The worker after a connection was created.
pub open spec fn conn_created(m: WorkerModel, idx: u64) -> WorkerModel {
    WorkerModel { receivers: m.receivers.insert(idx, new_receiver()), ..m }
}

/// The worker after a connection was established.
pub open spec fn conn_established(m: WorkerModel) -> WorkerModel {
    WorkerModel {
        conn_handshake_success: m.conn_handshake_success + 1,
        connected: true,
        ..m
    }
}

/// The worker after bytes arrived on a connection.
pub open spec fn data_arrived(m: WorkerModel, idx: u64, n: u64) -> WorkerModel {
    if m.receivers.contains_key(idx) {
        let recv = m.receivers[idx];
        WorkerModel {
            receivers: m.receivers.insert(
                idx,
                DataReceiver { bytes_received: (recv.bytes_received + n) as u64, ..recv },
            ),
            ..m
        }
    } else {
        m
    }
}

/// The worker after a stream was closed, and whether its connection is to be closed.
pub open spec fn stream_finished(m: WorkerModel, idx: u64) -> (WorkerModel, bool) {
    if m.receivers.contains_key(idx) {
        let after = one_finished(m.receivers[idx]);
        let done = all_finished(after);
        (
            WorkerModel {
                receivers: m.receivers.insert(idx, after),
                concurrent_conns: if done {
                    m.concurrent_conns - 1
                } else {
                    m.concurrent_conns
                },
                ..m
            },
            done,
        )
    } else {
        (m, false)
    }
}

/// The worker after a connection was closed.
pub open spec fn conn_closed(
    m: WorkerModel,
    idx: u64,
    stats: ConnectionStats,
    session: Option<Seq<u8>>,
    cause: CloseCause,
) -> WorkerModel {
    WorkerModel {
        bytes_received: m.bytes_received + if m.receivers.contains_key(idx) {
            m.receivers[idx].bytes_received as int
        } else {
            0
        },
        receivers: m.receivers.remove(idx),
        conn_stats: stats_sum(m.conn_stats, stats),
        session: match session {
            Some(s) => Some(s),
            None => m.session,
        },
        conn_finish: m.conn_finish + 1,
        conn_finish_success: if cause == CloseCause::Failure {
            m.conn_finish_success
        } else {
            m.conn_finish_success + 1
        },
        conn_finish_failed: if cause == CloseCause::Failure {
            m.conn_finish_failed + 1
        } else {
            m.conn_finish_failed
        },
        concurrent_conns: if cause == CloseCause::Local {
            m.concurrent_conns
        } else {
            m.concurrent_conns - 1
        },
        ..m
    }
}

/// Every finished connection either succeeded or failed.
pub open spec fn outcomes_add_up(m: WorkerModel) -> bool {
    m.conn_finish == m.conn_finish_success + m.conn_finish_failed
}

/// Closing a connection keeps the outcomes adding up.
pub proof fn closing_keeps_outcomes(
    m: WorkerModel,
    idx: u64,
    stats: ConnectionStats,
    session: Option<Seq<u8>>,
    cause: CloseCause,
)
    requires
        outcomes_add_up(m),
    ensures
        outcomes_add_up(conn_closed(m, idx, stats, session, cause)),
{
}

impl WorkerContext {
    /// A worker that starts at `now`.
    pub fn new(option: WorkerOptions, session: Option<Vec<u8>>, now: u64) -> (r: Self)
        ensures
            r@ == (WorkerModel {
                option,
                session: opt_bytes(session),
                bytes_received: 0,
                conn_total: 0,
                conn_handshake_success: 0,
                conn_finish: 0,
                conn_finish_success: 0,
                conn_finish_failed: 0,
                concurrent_conns: 0,
                conn_stats: no_stats(),
                connected: false,
                receivers: Map::empty(),
                start_time: now,
                end_time: None,
            }),
            outcomes_add_up(r@),
    {
        WorkerContext {
            option,
            session,
            bytes_received: 0,
            conn_total: 0,
            conn_handshake_success: 0,
            conn_finish: 0,
            conn_finish_success: 0,
            conn_finish_failed: 0,
            concurrent_conns: 0,
            conn_stats: ConnectionStats::default(),
            connected: false,
            receivers: fx_new(),
            start_time: now,
            end_time: None,
        }
    }

    /// Whether the worker ends.
    pub fn should_exit(&self, terminated: bool, now: u64) -> (r: bool)
        ensures
            r == exits(self@, terminated, now),
    {
        if terminated {
            return true;
        }
        if !self.connected && self.conn_finish_failed >= self.option.connection_failure_threshold {
            return true;
        }
        self.option.duration > 0 && elapsed_ns(self.start_time, now) / NANOS_PER_SEC
            >= self.option.duration
    }

    /// Decides what to do in a round.
    pub fn process(&mut self, terminated: bool, now: u64) -> (a: WorkerAction)
        ensures
            if exits(old(self)@, terminated, now) {
                &&& a matches WorkerAction::Close { conns } && conns@.no_duplicates()
                    && conns@.to_set() == old(self)@.receivers.dom()
                &&& final(self)@ == worker_ended(old(self)@, now)
            } else {
                &&& final(self)@ == old(self)@
                &&& if opens_another(old(self)@) {
                    a is Connect
                } else {
                    a is Wait
                }
            },
    {
        if self.should_exit(terminated, now) {
            if self.end_time.is_none() {
                self.end_time = Some(now);
            }
            return WorkerAction::Close { conns: fx_keys(&self.receivers) };
        }
        if self.concurrent_conns < self.option.max_concurrent_conns {
            WorkerAction::Connect
        } else {
            WorkerAction::Wait
        }
    }

    /// A connection was opened.
    pub fn on_connect(&mut self)
        requires
            old(self).concurrent_conns < u32::MAX,
            old(self).conn_total < u64::MAX,
        ensures
            final(self)@ == conn_opened(old(self)@),
    {
        self.concurrent_conns += 1;
        self.conn_total += 1;
    }

    /// A connection was created.
    pub fn on_conn_created(&mut self, idx: u64)
        ensures
            final(self)@ == conn_created(old(self)@, idx),
    {
        fx_insert(&mut self.receivers, idx, DataReceiver::new());
    }

    /// A connection was established.
    pub fn on_conn_established(&mut self)
        requires
            old(self).conn_handshake_success < u64::MAX,
        ensures
            final(self)@ == conn_established(old(self)@),
    {
        self.conn_handshake_success += 1;
        self.connected = true;
    }

    /// The bytes of a trigger: the direction, and the rate limit, little-endian.
    /// They tell the server how fast to send.
    pub fn trigger_bytes(&self) -> (r: Vec<u8>)
        ensures
            r@ == trigger_message(self.option.bandwidth),
    {
        let mut v: Vec<u8> = Vec::new();
        v.push(0);
        push_u64_le(&mut v, self.option.bandwidth);
        assert(v@ =~= trigger_message(self.option.bandwidth));
        v
    }

    /// Takes in what became of the last attempt to open a trigger stream, of
    /// which `attempts` were made, and says which stream to open next.
    pub fn open_trigger_streams(
        &mut self,
        idx: u64,
        attempts: u64,
        outcome: Option<TriggerOutcome>,
    ) -> (r: Option<u64>)
        requires
            old(self)@.receivers.contains_key(idx) ==> old(self)@.receivers[idx].streams_opened
                < u64::MAX / 4,
        ensures
            if old(self)@.receivers.contains_key(idx) {
                let recv = trigger_tried(old(self)@.receivers[idx], outcome);
                &&& final(self)@ == (WorkerModel {
                    receivers: old(self)@.receivers.insert(idx, recv),
                    ..old(self)@
                })
                &&& r == trigger_next(recv, attempts, old(self).option.streams_per_conn, outcome)
            } else {
                r is None && final(self)@ == old(self)@
            },
    {
        let streams: u64 = self.option.streams_per_conn;
        let ghost m = self@;
        match fx_get_mut(&mut self.receivers, idx) {
            Some(recv) => {
                if let Some(TriggerOutcome::Written) = outcome {
                    recv.streams_opened += 1;
                }
                if let Some(TriggerOutcome::LimitReached) = outcome {
                    return None;
                }
                if attempts >= streams {
                    None
                } else {
                    Some(recv.streams_opened * 4)
                }
            },
            None => None,
        }
    }

    /// Bytes arrived on a connection.
    pub fn on_stream_data(&mut self, idx: u64, n: u64)
        requires
            old(self)@.receivers.contains_key(idx) ==> old(self)@.receivers[idx].bytes_received + n
                <= u64::MAX,
        ensures
            final(self)@ == data_arrived(old(self)@, idx, n),
    {
        if let Some(recv) = fx_get_mut(&mut self.receivers, idx) {
            recv.bytes_received += n;
        }
    }

    /// A stream was closed. Returns whether the connection is to be closed: all
    /// its streams are finished.
    pub fn on_stream_closed(&mut self, idx: u64) -> (r: bool)
        requires
            old(self)@.receivers.contains_key(idx) ==> old(self)@.receivers[idx].streams_finished
                < u64::MAX,
            old(self)@.receivers.contains_key(idx) && all_finished(
                one_finished(old(self)@.receivers[idx]),
            ) ==> old(self).concurrent_conns > 0,
        ensures
            (final(self)@, r) == stream_finished(old(self)@, idx),
    {
        let mut done = false;
        if let Some(recv) = fx_get_mut(&mut self.receivers, idx) {
            recv.streams_finished += 1;
            done = recv.streams_finished >= recv.streams_opened && recv.streams_opened > 0;
        }
        if done {
            self.concurrent_conns -= 1;
        }
        done
    }

    /// A connection was closed. `session` is its session, where it is to be kept.
    pub fn on_conn_closed(
        &mut self,
        idx: u64,
        stats: &ConnectionStats,
        session: Option<Vec<u8>>,
        cause: CloseCause,
    )
        requires
            stats_fit(old(self).conn_stats, *stats),
            old(self)@.receivers.contains_key(idx) ==> old(self).bytes_received
                + old(self)@.receivers[idx].bytes_received <= u64::MAX,
            old(self).conn_finish < u64::MAX,
            old(self).conn_finish_success < u64::MAX,
            old(self).conn_finish_failed < u64::MAX,
            cause != CloseCause::Local ==> old(self).concurrent_conns > 0,
        ensures
            final(self)@ == conn_closed(old(self)@, idx, *stats, opt_bytes(session), cause),
    {
        if let Some(recv) = fx_get(&self.receivers, idx) {
            self.bytes_received += recv.bytes_received;
        }
        fx_remove(&mut self.receivers, idx);
        accum_conn_stats(&mut self.conn_stats, stats);
        if session.is_some() {
            self.session = session;
        }
        self.conn_finish += 1;
        match cause {
            CloseCause::Local => {
                self.conn_finish_success += 1;
            },
            CloseCause::Peer => {
                self.concurrent_conns -= 1;
                self.conn_finish_success += 1;
            },
            CloseCause::Failure => {
                self.conn_finish_failed += 1;
                self.concurrent_conns -= 1;
            },
        }
    }

    /// Adds what the worker counted to the client's counts.
    pub fn finish(&self, client: &mut ClientContext)
        requires
            stats_fit(old(client).conn_stats, self.conn_stats),
            old(client).bytes_received + self.bytes_received <= u64::MAX,
            old(client).conn_total + self.conn_total <= u64::MAX,
            old(client).conn_handshake_success + self.conn_handshake_success <= u64::MAX,
            old(client).conn_finish + self.conn_finish <= u64::MAX,
            old(client).conn_finish_success + self.conn_finish_success <= u64::MAX,
            old(client).conn_finish_failed + self.conn_finish_failed <= u64::MAX,
        ensures
            final(client)@ == merged(old(client)@, self@),
    {
        client.session = self.session.clone();
        assert(opt_bytes(client.session) =~= opt_bytes(self.session)) by {
            if self.session is Some {
                assert(client.session.unwrap()@ =~= self.session.unwrap()@);
            }
        }
        client.bytes_received += self.bytes_received;
        client.conn_total += self.conn_total;
        client.conn_handshake_success += self.conn_handshake_success;
        client.conn_finish += self.conn_finish;
        client.conn_finish_success += self.conn_finish_success;
        client.conn_finish_failed += self.conn_finish_failed;
        let later = match (self.end_time, client.end_time) {
            (Some(a), Some(b)) => a > b,
            (Some(_), None) => true,
            (None, _) => false,
        };
        if later {
            client.end_time = self.end_time;
        }
        accum_conn_stats(&mut client.conn_stats, &self.conn_stats);
    }
}

/// The later of two end times, where there are any.
pub open spec fn later_end(a: Option<u64>, b: Option<u64>) -> Option<u64> {
    match (a, b) {
        (Some(x), Some(y)) => if x > y {
            Some(x)
        } else {
            Some(y)
        },
        (Some(x), None) => Some(x),
        (None, _) => b,
    }
}

/// The client's counts with those of a worker.
pub open spec fn merged(c: ClientModel, w: WorkerModel) -> ClientModel {
    ClientModel {
        session: w.session,
        bytes_received: c.bytes_received + w.bytes_received,
        conn_total: c.conn_total + w.conn_total,
        conn_handshake_success: c.conn_handshake_success + w.conn_handshake_success,
        conn_finish: c.conn_finish + w.conn_finish,
        conn_finish_success: c.conn_finish_success + w.conn_finish_success,
        conn_finish_failed: c.conn_finish_failed + w.conn_finish_failed,
        end_time: later_end(w.end_time, c.end_time),
        conn_stats: stats_sum(c.conn_stats, w.conn_stats),
    }
}

/// The order in which workers finish decides the kept session alone.
pub proof fn merging_commutes(c: ClientModel, a: WorkerModel, b: WorkerModel)
    requires
        stats_fit(c.conn_stats, a.conn_stats),
        stats_fit(c.conn_stats, b.conn_stats),
        stats_fit(stats_sum(c.conn_stats, a.conn_stats), b.conn_stats),
    ensures
        merged(merged(c, a), b) == (ClientModel {
            session: b.session,
            ..merged(merged(c, b), a)
        }),
{
}

// ───────────────────────────── report ─────────────────────────────

/// The rendered measurements of a run.
pub struct RunCells {
    pub secs: String,
    pub gigabytes: String,
    pub gbps: String,
    pub mbps: String,
}

/// Three counts with slashes between them.
pub open spec fn triple(a: u64, b: u64, c: u64) -> Seq<char> {
    decimal(a as nat) + "/"@ + decimal(b as nat) + "/"@ + decimal(c as nat)
}

/// The lines of the client's report.
pub open spec fn run_report(ctx: ClientModel, c: RunCells) -> Seq<Seq<char>> {
    seq![
        ""@,
        "[ rawquic ] Reverse-mode throughput (server → client)"@,
        "  Duration  : "@ + c.secs@ + " s"@,
        "  Transfer  : "@ + decimal(ctx.bytes_received as nat) + " bytes  ("@ + c.gigabytes@
            + " GB)"@,
        "  Bitrate   : "@ + c.gbps@ + " Gbits/sec  ("@ + c.mbps@ + " Mbits/sec)"@,
        "  Conns     : total "@ + decimal(ctx.conn_total as nat) + ", ok "@ + decimal(
            ctx.conn_finish_success as nat,
        ) + ", failed "@ + decimal(ctx.conn_finish_failed as nat),
        "  Pkts  recv/sent/lost : "@ + triple(
            ctx.conn_stats.recv_count,
            ctx.conn_stats.sent_count,
            ctx.conn_stats.lost_count,
        ),
        "  Bytes recv/sent/lost : "@ + triple(
            ctx.conn_stats.recv_bytes,
            ctx.conn_stats.sent_bytes,
            ctx.conn_stats.lost_bytes,
        ),
        ""@,
    ]
}

fn triple_string(a: u64, b: u64, c: u64) -> (r: String)
    ensures
        r@ == triple(a, b, c),
{
    let mut s = crate::numerals::decimal_string(a);
    s.append("/");
    push_decimal(&mut s, b);
    s.append("/");
    push_decimal(&mut s, c);
    s
}

/// How long a run took that started at `start`.
pub open spec fn run_duration(end_time: Option<u64>, start: u64, now: u64) -> u64 {
    match end_time {
        Some(t) => elapsed(start, t),
        None => elapsed(start, now),
    }
}

impl ClientContext {
    /// How long the run took, in nanoseconds.
    pub fn duration_ns(&self, start: u64, now: u64) -> (r: u64)
        ensures
            r == run_duration(self.end_time, start, now),
    {
        match self.end_time {
            Some(t) => elapsed_ns(start, t),
            None => elapsed_ns(start, now),
        }
    }

    /// The lines of the client's report.
    pub fn print_stats(&self, c: &RunCells) -> (r: Vec<String>)
        ensures
            texts(r@) == run_report(self@, *c),
    {
        let mut duration = String::from_str("  Duration  : ");
        duration.append(c.secs.as_str());
        duration.append(" s");
        let mut transfer = String::from_str("  Transfer  : ");
        push_decimal(&mut transfer, self.bytes_received);
        transfer.append(" bytes  (");
        transfer.append(c.gigabytes.as_str());
        transfer.append(" GB)");
        let mut bitrate = String::from_str("  Bitrate   : ");
        bitrate.append(c.gbps.as_str());
        bitrate.append(" Gbits/sec  (");
        bitrate.append(c.mbps.as_str());
        bitrate.append(" Mbits/sec)");
        let mut conns = String::from_str("  Conns     : total ");
        push_decimal(&mut conns, self.conn_total);
        conns.append(", ok ");
        push_decimal(&mut conns, self.conn_finish_success);
        conns.append(", failed ");
        push_decimal(&mut conns, self.conn_finish_failed);
        let s = &self.conn_stats;
        let mut pkts = String::from_str("  Pkts  recv/sent/lost : ");
        pkts.append(triple_string(s.recv_count, s.sent_count, s.lost_count).as_str());
        let mut bytes = String::from_str("  Bytes recv/sent/lost : ");
        bytes.append(triple_string(s.recv_bytes, s.sent_bytes, s.lost_bytes).as_str());
        let mut r: Vec<String> = Vec::new();
        r.push(String::from_str(""));
        r.push(String::from_str("[ rawquic ] Reverse-mode throughput (server → client)"));
        r.push(duration);
        r.push(transfer);
        r.push(bitrate);
        r.push(conns);
        r.push(pkts);
        r.push(bytes);
        r.push(String::from_str(""));
        assert(texts(r@) =~= run_report(self@, *c));
        r
    }
}

} // verus!
