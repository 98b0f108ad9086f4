//! The benchmark server: its connections, its live counters and its interval
//! report.

use crate::clock::{elapsed, elapsed_ns};
use crate::maps::{fx_contains_key, fx_get, fx_get_mut, fx_insert, fx_new, fx_remove};
use crate::stats::ConnectionStats;
use crate::stream::{
    answers, new_connection, new_stream, pumped, trigger_read, ConnectionHandler, ConnectionModel,
    DrainAction, DrainEvent, DrainEventModel, PumpAction, PumpActionModel, PumpEvent, StreamModel,
    TriggerStep, drained, is_draining,
};
use crate::framing::{bytes_read, last_seen, stamps_read, variations};
use crate::text::opt_text;
use crate::wire::TransferMode;
use rustc_hash::FxHashMap;
use vstd::prelude::*;
use vstd::string::StringExecFns;

verus! {

// ───────────────────────────── scheduler names ─────────────────────────────

/// The multipath scheduling algorithms.
#[derive(Debug, Clone, Copy, PartialEq, Eq, Structural)]
pub enum MultipathAlgorithm {
    MinRtt,
    RoundRobin,
    Redundant,
    LinUCB,
    EpsilonGreedy,
}

/// The label of an algorithm in a run's name.
pub open spec fn algorithm_label(a: MultipathAlgorithm) -> Seq<char> {
    match a {
        MultipathAlgorithm::MinRtt => "minrtt"@,
        MultipathAlgorithm::RoundRobin => "roundrobin"@,
        MultipathAlgorithm::Redundant => "redundant"@,
        MultipathAlgorithm::LinUCB => "linucb"@,
        MultipathAlgorithm::EpsilonGreedy => "egreedy"@,
    }
}

/// The label of an algorithm in a run's name.
pub fn scheduler_name(a: MultipathAlgorithm) -> (r: String)
    ensures
        r@ == algorithm_label(a),
{
    match a {
        MultipathAlgorithm::MinRtt => String::from_str("minrtt"),
        MultipathAlgorithm::RoundRobin => String::from_str("roundrobin"),
        MultipathAlgorithm::Redundant => String::from_str("redundant"),
        MultipathAlgorithm::LinUCB => String::from_str("linucb"),
        MultipathAlgorithm::EpsilonGreedy => String::from_str("egreedy"),
    }
}

// ───────────────────────────── live counters ─────────────────────────────

/// The counters that the interval report reads while connections are served.
#[derive(Debug, Clone, Copy)]
pub struct LiveCounters {
    /// Bytes transferred in the session.
    pub bytes: u64,
    pub lost: u64,
    /// Sent packets, or received datagrams for an uplink session.
    pub sent: u64,
    /// Jitter in milliseconds, as the bits of a double.
    pub jitter_bits: u64,
    /// The session is an uplink session.
    pub is_uplink: bool,
    /// The session has ended.
    pub done: bool,
    /// How long the session took, in nanoseconds; 0 while it is not known.
    pub duration_ns: u64,
}

/// The counters before a session.
pub open spec fn no_counts() -> LiveCounters {
    LiveCounters {
        bytes: 0,
        lost: 0,
        sent: 0,
        jitter_bits: 0,
        is_uplink: false,
        done: false,
        duration_ns: 0,
    }
}

impl LiveCounters {
    /// The counters before a session.
    pub fn new() -> (r: Self)
        ensures
            r == no_counts(),
    {
        LiveCounters {
            bytes: 0,
            lost: 0,
            sent: 0,
            jitter_bits: 0,
            is_uplink: false,
            done: false,
            duration_ns: 0,
        }
    }
}

/// The bytes added since the last report, where the count rose.
pub open spec fn bytes_added(live: u64, now: u64, before: u64) -> u64 {
    if now > before {
        live.wrapping_add((now - before) as u64)
    } else {
        live
    }
}

// ───────────────────────────── connections ─────────────────────────────

/// What a closed connection asks for.
pub struct CloseReport {
    /// The statistics of each path are to be shown.
    pub per_path: bool,
    /// The key with which the scheduler's metrics are to be uploaded.
    pub upload_key: Option<String>,
}

/// What a readable stream asks for.
#[derive(Debug, Clone, Copy, PartialEq, Eq, Structural)]
pub enum ReadableAction {
    Ignore,
    /// Answer with the connection's statistics.
    ReplyStats,
    /// Send datagrams.
    Pump,
    /// Receive datagrams.
    Drain,
}

/// The state of all connections.
pub struct ServerHandler {
    pub conns: FxHashMap<u64, ConnectionHandler>,
    /// Total bytes to send per stream (0 means unlimited).
    pub send_size: usize,
    /// When the first connection of the session was established.
    pub session_start: Option<u64>,
    /// The key for metrics uploads; it is used once.
    pub wandb_key: Option<String>,
    pub scheduler_name: String,
}

/// [`ServerHandler`], as the contracts speak of it.
#[verifier::ext_equal]
pub struct ServerModel {
    pub conns: Map<u64, ConnectionModel>,
    pub send_size: usize,
    pub session_start: Option<u64>,
    pub wandb_key: Option<Seq<char>>,
    pub scheduler_name: Seq<char>,
}

impl View for ServerHandler {
    type V = ServerModel;

    open spec fn view(&self) -> ServerModel {
        ServerModel {
            conns: self.conns@.map_values(|c: ConnectionHandler| c@),
            send_size: self.send_size,
            session_start: self.session_start,
            wandb_key: opt_text(self.wandb_key),
            scheduler_name: self.scheduler_name@,
        }
    }
}

/// The stream of a connection.
pub open spec fn stream_at(m: ServerModel, idx: u64, stream_id: u64) -> Option<StreamModel> {
    if m.conns.contains_key(idx) && m.conns[idx].streams.contains_key(stream_id) {
        Some(m.conns[idx].streams[stream_id])
    } else {
        None
    }
}

/// The connections with the stream of one of them replaced.
pub open spec fn with_stream(m: ServerModel, idx: u64, stream_id: u64, v: StreamModel)
    -> ServerModel {
    ServerModel {
        conns: m.conns.insert(
            idx,
            ConnectionModel {
                streams: m.conns[idx].streams.insert(stream_id, v),
                ..m.conns[idx]
            },
        ),
        ..m
    }
}

/// The connections with one for the index.
pub open spec fn conn_ensured(m: ServerModel, idx: u64) -> ServerModel {
    if m.conns.contains_key(idx) {
        m
    } else {
        ServerModel { conns: m.conns.insert(idx, new_connection(m.send_size)), ..m }
    }
}

/// What a readable stream asks for; `just_ready` tells that its trigger was
/// completed right now.
pub open spec fn readable(m: ServerModel, idx: u64, stream_id: u64, just_ready: bool)
    -> ReadableAction {
    let v = stream_at(m, idx, stream_id);
    if stream_id % 2 == 1 {
        ReadableAction::Ignore
    } else if just_ready {
        if v matches Some(v) && v.is_stats_request {
            ReadableAction::ReplyStats
        } else if v matches Some(v) && v.mode == TransferMode::Uplink {
            ReadableAction::Drain
        } else {
            ReadableAction::Pump
        }
    } else {
        ReadableAction::Drain
    }
}

/// The live counters once a readable stream was looked at: a completed uplink trigger
/// makes the session an uplink session.
pub open spec fn direction_noted(live: LiveCounters, just_ready: bool, action: ReadableAction)
    -> LiveCounters {
    LiveCounters {
        is_uplink: live.is_uplink || (just_ready && action == ReadableAction::Drain),
        ..live
    }
}

/// The connections once a stream was created. Only streams that the client opened,
/// which have even ids, are served.
pub open spec fn stream_created(m: ServerModel, idx: u64, stream_id: u64) -> ServerModel {
    let n = conn_ensured(m, idx);
    if stream_id % 2 == 1 {
        n
    } else {
        with_stream(n, idx, stream_id, new_stream())
    }
}

/// The connections once a stream was closed.
pub open spec fn stream_closed(m: ServerModel, idx: u64, stream_id: u64) -> ServerModel {
    if m.conns.contains_key(idx) {
        ServerModel {
            conns: m.conns.insert(
                idx,
                ConnectionModel {
                    streams: m.conns[idx].streams.remove(stream_id),
                    ..m.conns[idx]
                },
            ),
            ..m
        }
    } else {
        m
    }
}

/// A writable stream sends: its connection is known and it does not send to the
/// server.
pub open spec fn may_send(m: ServerModel, idx: u64, stream_id: u64) -> bool {
    &&& m.conns.contains_key(idx)
    &&& !(stream_at(m, idx, stream_id) matches Some(v) && v.mode == TransferMode::Uplink)
}

/// A connection after an event on one of its receiving streams, the delay
/// variations of the datagrams that arrived, and what to do next.
pub open spec fn drained_connection(c: ConnectionModel, stream_id: u64, e: DrainEventModel) -> (
    ConnectionModel,
    Seq<u64>,
    DrainAction,
) {
    let v = c.streams[stream_id];
    let (data, recv_us) = match e {
        DrainEventModel::Read { data, recv_us, .. } if is_draining(v) => (data, recv_us),
        _ => (Seq::<u8>::empty(), 0u64),
    };
    let stamps = stamps_read(c.position, data);
    let position = bytes_read(c.position, data);
    let d = drained(v, e, position.received as u64);
    (
        ConnectionModel {
            streams: c.streams.insert(stream_id, d.0),
            position,
            last: last_seen(c.last, stamps, recv_us),
            ..c
        },
        variations(c.last, stamps, recv_us),
        d.1,
    )
}

/// The connections and the live counters once the bytes received on a connection
/// were added in an uplink session.
pub open spec fn uplink_counted(
    m: ServerModel,
    live: LiveCounters,
    idx: u64,
    stats: ConnectionStats,
) -> (ServerModel, LiveCounters) {
    if live.is_uplink && m.conns.contains_key(idx) {
        let c = m.conns[idx];
        (
            ServerModel {
                conns: m.conns.insert(
                    idx,
                    ConnectionModel {
                        prev_bytes_recv: if stats.recv_bytes > c.prev_bytes_recv {
                            stats.recv_bytes
                        } else {
                            c.prev_bytes_recv
                        },
                        ..c
                    },
                ),
                ..m
            },
            LiveCounters {
                bytes: bytes_added(live.bytes, stats.recv_bytes, c.prev_bytes_recv),
                sent: c.position.received as u64,
                lost: stats.lost_count,
                ..live
            },
        )
    } else {
        (m, live)
    }
}

/// The connections and the live counters once the bytes sent on a connection were
/// added.
pub open spec fn downlink_counted(
    m: ServerModel,
    live: LiveCounters,
    idx: u64,
    stats: ConnectionStats,
) -> (ServerModel, LiveCounters) {
    if m.conns.contains_key(idx) {
        let c = m.conns[idx];
        (
            ServerModel {
                conns: m.conns.insert(
                    idx,
                    ConnectionModel {
                        prev_bytes_sent: if stats.sent_bytes > c.prev_bytes_sent {
                            stats.sent_bytes
                        } else {
                            c.prev_bytes_sent
                        },
                        ..c
                    },
                ),
                ..m
            },
            LiveCounters {
                bytes: bytes_added(live.bytes, stats.sent_bytes, c.prev_bytes_sent),
                sent: stats.sent_count,
                lost: stats.lost_count,
                ..live
            },
        )
    } else {
        (m, live)
    }
}

/// Metrics are uploaded for a connection with several paths whose scheduler has
/// some, and not for an uplink session, in which the client schedules.
pub open spec fn uploads_metrics(paths: usize, has_metrics: bool, live: LiveCounters) -> bool {
    paths > 1 && has_metrics && !live.is_uplink
}

/// The connections and the live counters once a connection was closed.
pub open spec fn session_closed(
    m: ServerModel,
    live: LiveCounters,
    idx: u64,
    now: u64,
    uploads: bool,
) -> (ServerModel, LiveCounters) {
    (
        ServerModel {
            conns: m.conns.remove(idx),
            session_start: None,
            wandb_key: if uploads {
                None
            } else {
                m.wandb_key
            },
            ..m
        },
        LiveCounters {
            done: true,
            duration_ns: match m.session_start {
                Some(t) => elapsed(t, now),
                None => live.duration_ns,
            },
            ..live
        },
    )
}

/// The connections once one was established.
pub open spec fn conn_established(m: ServerModel, idx: u64, now: u64) -> ServerModel {
    ServerModel {
        session_start: match m.session_start {
            Some(t) => Some(t),
            None => Some(now),
        },
        ..conn_ensured(m, idx)
    }
}

impl ServerHandler {
    /// Every connection is well-formed and sends as much as the server says.
    pub open spec fn wf(self) -> bool {
        forall|idx: u64| #[trigger]
            self.conns@.contains_key(idx) ==> self.conns@[idx].wf() && self.conns@[idx].send_size
                == self.send_size
    }

    /// A server without connections. An empty key stands for none.
    pub fn new(send_size: usize, algorithm: MultipathAlgorithm, wandb_key: String) -> (r: Self)
        ensures
            r.wf(),
            r@ == (ServerModel {
                conns: Map::empty(),
                send_size,
                session_start: None,
                wandb_key: if wandb_key@.len() > 0 {
                    Some(wandb_key@)
                } else {
                    None
                },
                scheduler_name: algorithm_label(algorithm),
            }),
    {
        let key = if crate::text::same_text(wandb_key.as_str(), "") {
            None
        } else {
            Some(wandb_key)
        };
        proof {
            reveal_strlit("");
            assert(""@ =~= Seq::<char>::empty());
            assert(wandb_key@.len() == 0 ==> wandb_key@ =~= Seq::<char>::empty());
        }
        let r = ServerHandler {
            conns: fx_new(),
            send_size,
            session_start: None,
            wandb_key: key,
            scheduler_name: scheduler_name(algorithm),
        };
        assert(r@.conns =~= Map::<u64, ConnectionModel>::empty());
        r
    }

    /// Makes sure that the connection is known.
    pub fn ensure_conn_handler(&mut self, idx: u64)
        requires
            old(self).wf(),
        ensures
            final(self).wf(),
            final(self)@ == conn_ensured(old(self)@, idx),
    {
        if fx_contains_key(&self.conns, idx) {
            return ;
        }
        fx_insert(&mut self.conns, idx, ConnectionHandler::new(self.send_size));
        assert(self@ =~= conn_ensured(old(self)@, idx));
    }

    /// A connection was established at `now`.
    pub fn on_conn_established(&mut self, idx: u64, now: u64)
        requires
            old(self).wf(),
        ensures
            final(self).wf(),
            final(self)@ == conn_established(old(self)@, idx, now),
    {
        self.ensure_conn_handler(idx);
        if self.session_start.is_none() {
            self.session_start = Some(now);
        }
    }

    /// A connection with this many paths was closed at `now`.
    pub fn on_conn_closed(
        &mut self,
        idx: u64,
        now: u64,
        paths: usize,
        has_metrics: bool,
        live: &mut LiveCounters,
    ) -> (r: CloseReport)
        requires
            old(self).wf(),
        ensures
            final(self).wf(),
            ({
                let uploads = uploads_metrics(paths, has_metrics, *old(live));
                &&& r.per_path == (paths > 1)
                &&& opt_text(r.upload_key) == if uploads {
                    old(self)@.wandb_key
                } else {
                    None
                }
                &&& (final(self)@, *final(live)) == session_closed(
                    old(self)@,
                    *old(live),
                    idx,
                    now,
                    uploads,
                )
            }),
    {
        let upload_key = if paths > 1 && has_metrics && !live.is_uplink {
            self.wandb_key.take()
        } else {
            None
        };
        if let Some(start) = self.session_start {
            live.duration_ns = elapsed_ns(start, now);
        }
        self.session_start = None;
        fx_remove(&mut self.conns, idx);
        live.done = true;
        assert(self@.conns =~= old(self)@.conns.remove(idx));
        CloseReport { per_path: paths > 1, upload_key }
    }

    /// A stream was created. Only streams that the client opened, which have even
    /// ids, are served.
    pub fn on_stream_created(&mut self, idx: u64, stream_id: u64)
        requires
            old(self).wf(),
        ensures
            final(self).wf(),
            final(self)@ == stream_created(old(self)@, idx, stream_id),
    {
        self.ensure_conn_handler(idx);
        let ghost m = self@;
        if stream_id % 2 == 1 {
            return ;
        }
        if let Some(handler) = fx_get_mut(&mut self.conns, idx) {
            handler.register_stream(stream_id);
            let ghost h = handler@;
            proof {
                assert(h =~= with_stream(m, idx, stream_id, new_stream()).conns[idx]);
                assert(self@.conns =~= m.conns.insert(idx, h));
            }
        }
    }

    /// A stream was closed.
    pub fn on_stream_closed(&mut self, idx: u64, stream_id: u64)
        requires
            old(self).wf(),
        ensures
            final(self).wf(),
            final(self)@ == stream_closed(old(self)@, idx, stream_id),
    {
        let ghost m = self@;
        if let Some(handler) = fx_get_mut(&mut self.conns, idx) {
            handler.remove_stream(stream_id);
            let ghost h = handler@;
            assert(self@.conns =~= m.conns.insert(idx, h));
        } else {
            assert(self@.conns =~= m.conns);
        }
    }

    /// Takes in bytes read on a stream that waits for its trigger.
    pub fn parse_trigger(&mut self, idx: u64, stream_id: u64, data: &[u8], fin: bool) -> (r:
        TriggerStep)
        requires
            old(self).wf(),
        ensures
            final(self).wf(),
            match stream_at(old(self)@, idx, stream_id) {
                Some(v) => {
                    &&& final(self)@ == with_stream(
                        old(self)@,
                        idx,
                        stream_id,
                        trigger_read(v, data@, fin).0,
                    )
                    &&& r == trigger_read(v, data@, fin).1
                },
                None => final(self)@ == old(self)@ && r == TriggerStep::NotWaiting,
            },
    {
        let ghost m = self@;
        if let Some(handler) = fx_get_mut(&mut self.conns, idx) {
            let r = handler.parse_trigger(stream_id, data, fin);
            let ghost h = handler@;
            proof {
                assert(self@.conns =~= m.conns.insert(idx, h));
                if stream_at(m, idx, stream_id) is None {
                    assert(h =~= m.conns[idx]);
                    assert(self@.conns =~= m.conns);
                }
            }
            r
        } else {
            assert(self@.conns =~= m.conns);
            TriggerStep::NotWaiting
        }
    }

    /// Says what a readable stream asks for, and notes that the session is an
    /// uplink session where an uplink trigger was completed.
    pub fn on_stream_readable(
        &self,
        idx: u64,
        stream_id: u64,
        just_ready: bool,
        live: &mut LiveCounters,
    ) -> (r: ReadableAction)
        ensures
            r == readable(self@, idx, stream_id, just_ready),
            *final(live) == direction_noted(*old(live), just_ready, r),
    {
        if stream_id % 2 == 1 {
            return ReadableAction::Ignore;
        }
        if !just_ready {
            return ReadableAction::Drain;
        }
        if let Some(handler) = fx_get(&self.conns, idx) {
            if handler.is_stats_request(stream_id) {
                return ReadableAction::ReplyStats;
            }
            if handler.is_uplink(stream_id) {
                live.is_uplink = true;
                return ReadableAction::Drain;
            }
        }
        ReadableAction::Pump
    }

    /// Whether a writable stream sends: its connection is known and it does not
    /// send to the server.
    pub fn on_stream_writable(&self, idx: u64, stream_id: u64) -> (r: bool)
        ensures
            r == may_send(self@, idx, stream_id),
    {
        if let Some(handler) = fx_get(&self.conns, idx) {
            !handler.is_uplink(stream_id)
        } else {
            false
        }
    }

    /// Takes in what became of the last action on a stream that sends, and says
    /// what to do next.
    pub fn pump(&mut self, idx: u64, stream_id: u64, event: PumpEvent) -> (a: PumpAction)
        requires
            old(self).wf(),
            stream_at(old(self)@, idx, stream_id) matches Some(v) ==> answers(
                v,
                old(self).send_size as nat,
                event,
            ),
        ensures
            final(self).wf(),
            match stream_at(old(self)@, idx, stream_id) {
                Some(v) => {
                    let p = pumped(v, old(self).send_size as nat, event);
                    final(self)@ == with_stream(old(self)@, idx, stream_id, p.0) && a@ == p.1
                },
                None => final(self)@ == old(self)@ && a@ == PumpActionModel::Return,
            },
    {
        let ghost m = self@;
        assert(self.conns@.contains_key(idx) ==> m.conns[idx] == self.conns@[idx]@);
        if let Some(handler) = fx_get_mut(&mut self.conns, idx) {
            let a = handler.pump(stream_id, event);
            let ghost h = handler@;
            proof {
                assert(self@.conns =~= m.conns.insert(idx, h));
                if stream_at(m, idx, stream_id) is None {
                    assert(h =~= m.conns[idx]);
                    assert(self@.conns =~= m.conns);
                }
            }
            a
        } else {
            assert(self@.conns =~= m.conns);
            PumpAction::Return
        }
    }

    /// The datagrams that a connection has received.
    pub fn datagrams_received(&self, idx: u64) -> (r: u64)
        ensures
            r == if self@.conns.contains_key(idx) {
                self@.conns[idx].position.received
            } else {
                0
            },
    {
        match fx_get(&self.conns, idx) {
            Some(handler) => handler.reader.app_datagrams_received,
            None => 0,
        }
    }

    /// Takes in what became of the last action on a stream that receives; returns
    /// the delay variations of the datagrams that arrived, in microseconds, and
    /// what to do next.
    pub fn drain_uplink(&mut self, idx: u64, stream_id: u64, event: DrainEvent) -> (r: (
        Vec<u64>,
        DrainAction,
    ))
        requires
            old(self).wf(),
            old(self)@.conns.contains_key(idx) ==> (event@ matches DrainEventModel::Read {
                data,
                ..
            } ==> old(self)@.conns[idx].position.received + data.len() <= u64::MAX),
        ensures
            final(self).wf(),
            match stream_at(old(self)@, idx, stream_id) {
                Some(v) => {
                    let d = drained_connection(old(self)@.conns[idx], stream_id, event@);
                    &&& r.0@ == d.1
                    &&& r.1 == d.2
                    &&& final(self)@ == (ServerModel {
                        conns: old(self)@.conns.insert(idx, d.0),
                        ..old(self)@
                    })
                },
                None => {
                    &&& r.0@ == Seq::<u64>::empty()
                    &&& r.1 == DrainAction::Return
                    &&& final(self)@ == old(self)@
                },
            },
    {
        let ghost m = self@;
        assert(self.conns@.contains_key(idx) ==> m.conns[idx] == self.conns@[idx]@);
        if let Some(handler) = fx_get_mut(&mut self.conns, idx) {
            let r = handler.drain_uplink(stream_id, event);
            let ghost h = handler@;
            proof {
                assert(self@.conns =~= m.conns.insert(idx, h));
                if stream_at(m, idx, stream_id) is None {
                    assert(h =~= m.conns[idx]);
                    assert(self@.conns =~= m.conns);
                } else {
                    assert(h =~= drained_connection(m.conns[idx], stream_id, event@).0);
                }
            }
            r
        } else {
            assert(self@.conns =~= m.conns);
            (Vec::new(), DrainAction::Return)
        }
    }

    /// Adds the bytes received on the connection to the live counters of an
    /// uplink session.
    pub fn update_uplink(&mut self, idx: u64, stats: &ConnectionStats, live: &mut LiveCounters)
        requires
            old(self).wf(),
        ensures
            final(self).wf(),
            (final(self)@, *final(live)) == uplink_counted(old(self)@, *old(live), idx, *stats),
    {
        let ghost m = self@;
        if !live.is_uplink {
            return ;
        }
        assert(self.conns@.contains_key(idx) ==> m.conns[idx] == self.conns@[idx]@);
        if let Some(handler) = fx_get_mut(&mut self.conns, idx) {
            if stats.recv_bytes > handler.prev_bytes_recv {
                let delta: u64 = stats.recv_bytes - handler.prev_bytes_recv;
                handler.prev_bytes_recv = stats.recv_bytes;
                live.bytes = live.bytes.wrapping_add(delta);
            }
            live.sent = handler.reader.app_datagrams_received;
            live.lost = stats.lost_count;
            let ghost h = handler@;
            assert(self@.conns =~= m.conns.insert(idx, h));
        } else {
            assert(self@.conns =~= m.conns);
        }
    }

    /// Adds the bytes sent on the connection to the live counters.
    pub fn update_downlink(&mut self, idx: u64, stats: &ConnectionStats, live: &mut LiveCounters)
        requires
            old(self).wf(),
        ensures
            final(self).wf(),
            (final(self)@, *final(live)) == downlink_counted(old(self)@, *old(live), idx, *stats),
    {
        let ghost m = self@;
        assert(self.conns@.contains_key(idx) ==> m.conns[idx] == self.conns@[idx]@);
        if let Some(handler) = fx_get_mut(&mut self.conns, idx) {
            if stats.sent_bytes > handler.prev_bytes_sent {
                let delta: u64 = stats.sent_bytes - handler.prev_bytes_sent;
                handler.prev_bytes_sent = stats.sent_bytes;
                live.bytes = live.bytes.wrapping_add(delta);
            }
            live.sent = stats.sent_count;
            live.lost = stats.lost_count;
            let ghost h = handler@;
            assert(self@.conns =~= m.conns.insert(idx, h));
        } else {
            assert(self@.conns =~= m.conns);
        }
    }
}

/// Live bytes count every byte once: two updates in a row add as much as one
/// with the later statistics.
pub proof fn live_bytes_count_once(live: u64, before: u64, mid: u64, now: u64)
    requires
        before <= mid <= now,
    ensures
        bytes_added(bytes_added(live, mid, before), now, mid) == bytes_added(live, now, before),
{
}

} // verus!
