//! What the server promises of its live counters, its sessions and its report of each
//! second.

use crate::report::{session_total, ticked, IntervalReporter};
use crate::server::{
    algorithm_label, conn_ensured, conn_established, direction_noted, downlink_counted, may_send,
    readable, session_closed, stream_at, stream_closed, stream_created, uplink_counted,
    uploads_metrics, with_stream, LiveCounters, MultipathAlgorithm, ServerModel,
};
use crate::stats::ConnectionStats;
use crate::stream::{new_stream, StreamModel};
use vstd::prelude::*;

verus! {

// ───────────────────────────── live counters ─────────────────────────────

/// In an uplink session the live bytes rise by what the connection received since the
/// last update, the datagrams are those that arrived, and the losses are the
/// connection's; what was sent does not count.
pub proof fn uplink_counts_what_was_received(
    m: ServerModel,
    live: LiveCounters,
    idx: u64,
    stats: ConnectionStats,
)
    requires
        m.conns.contains_key(idx),
        live.is_uplink,
        live.bytes + stats.recv_bytes <= u64::MAX,
        m.conns[idx].position.received <= u64::MAX,
    ensures
        ({
            let (n, after) = uplink_counted(m, live, idx, stats);
            let before = m.conns[idx].prev_bytes_recv;
            &&& stats.recv_bytes >= before ==> after.bytes - live.bytes == stats.recv_bytes - before
            &&& stats.recv_bytes >= before ==> n.conns[idx].prev_bytes_recv == stats.recv_bytes
            &&& stats.recv_bytes < before ==> after.bytes == live.bytes
                && n.conns[idx].prev_bytes_recv == before
            &&& after.sent == m.conns[idx].position.received
            &&& after.lost == stats.lost_count
            &&& n.conns[idx].prev_bytes_sent == m.conns[idx].prev_bytes_sent
            &&& after.jitter_bits == live.jitter_bits && after.is_uplink && after.done == live.done
                && after.duration_ns == live.duration_ns
        }),
{
}

/// A session that is no uplink session is not counted by what is received, and an
/// unknown connection is not counted at all.
pub proof fn other_sessions_are_not_counted(
    m: ServerModel,
    live: LiveCounters,
    idx: u64,
    stats: ConnectionStats,
)
    ensures
        !live.is_uplink || !m.conns.contains_key(idx) ==> uplink_counted(m, live, idx, stats) == (
            m,
            live,
        ),
        !m.conns.contains_key(idx) ==> downlink_counted(m, live, idx, stats) == (m, live),
{
}

/// In a downlink session the live bytes rise by what the connection sent since the last
/// update, and the packets and the losses are the connection's.
pub proof fn downlink_counts_what_was_sent(
    m: ServerModel,
    live: LiveCounters,
    idx: u64,
    stats: ConnectionStats,
)
    requires
        m.conns.contains_key(idx),
        live.bytes + stats.sent_bytes <= u64::MAX,
    ensures
        ({
            let (n, after) = downlink_counted(m, live, idx, stats);
            let before = m.conns[idx].prev_bytes_sent;
            &&& stats.sent_bytes >= before ==> after.bytes - live.bytes == stats.sent_bytes - before
            &&& stats.sent_bytes >= before ==> n.conns[idx].prev_bytes_sent == stats.sent_bytes
            &&& stats.sent_bytes < before ==> after.bytes == live.bytes
                && n.conns[idx].prev_bytes_sent == before
            &&& after.sent == stats.sent_count
            &&& after.lost == stats.lost_count
            &&& n.conns[idx].prev_bytes_recv == m.conns[idx].prev_bytes_recv
            &&& after.jitter_bits == live.jitter_bits && after.is_uplink == live.is_uplink
                && after.done == live.done && after.duration_ns == live.duration_ns
        }),
{
}

/// Counting concerns one connection alone.
pub proof fn counting_keeps_other_connections(
    m: ServerModel,
    live: LiveCounters,
    idx: u64,
    stats: ConnectionStats,
    other: u64,
)
    requires
        other != idx,
    ensures
        ({
            let n = uplink_counted(m, live, idx, stats).0;
            &&& n.conns.contains_key(other) <==> m.conns.contains_key(other)
            &&& m.conns.contains_key(other) ==> n.conns[other] == m.conns[other]
        }),
        ({
            let n = downlink_counted(m, live, idx, stats).0;
            &&& n.conns.contains_key(other) <==> m.conns.contains_key(other)
            &&& m.conns.contains_key(other) ==> n.conns[other] == m.conns[other]
        }),
{
}

// ───────────────────────────── sessions ─────────────────────────────

/// A session runs from its first established connection to a close: its duration is
/// the time between the two, the connection is gone, and the next session begins anew.
pub proof fn session_lasts_from_first_connection_to_close(
    m: ServerModel,
    live: LiveCounters,
    idx: u64,
    second: u64,
    start: u64,
    later: u64,
    end: u64,
    uploads: bool,
)
    requires
        m.session_start is None,
        start <= later,
        start <= end,
    ensures
        ({
            let n = conn_established(conn_established(m, idx, start), second, later);
            let (closed, after) = session_closed(n, live, idx, end, uploads);
            &&& n.conns.contains_key(idx) && n.conns.contains_key(second)
            &&& after.duration_ns == end - start
            &&& after.done
            &&& after.bytes == live.bytes && after.lost == live.lost && after.sent == live.sent
                && after.jitter_bits == live.jitter_bits && after.is_uplink == live.is_uplink
            &&& !closed.conns.contains_key(idx)
            &&& second != idx ==> closed.conns.contains_key(second) && closed.conns[second]
                == n.conns[second]
            &&& closed.session_start is None
            &&& closed.send_size == m.send_size && closed.scheduler_name == m.scheduler_name
        }),
{
}

/// A key is used for one upload: it is there until metrics are uploaded, and gone
/// afterwards; an uplink session, one path or no metrics upload nothing.
pub proof fn key_is_used_once(
    m: ServerModel,
    live: LiveCounters,
    idx: u64,
    now: u64,
    paths: usize,
    has_metrics: bool,
)
    ensures
        ({
            let uploads = uploads_metrics(paths, has_metrics, live);
            let n = session_closed(m, live, idx, now, uploads).0;
            &&& uploads <==> paths >= 2 && has_metrics && !live.is_uplink
            &&& uploads ==> n.wandb_key is None
            &&& !uploads ==> n.wandb_key == m.wandb_key
        }),
{
}

/// A connection that is known stays as it is; an unknown one begins with nothing
/// received and the server's size to send.
pub proof fn known_connections_are_kept(m: ServerModel, idx: u64, other: u64)
    ensures
        ({
            let n = conn_ensured(m, idx);
            &&& n.conns.contains_key(idx)
            &&& m.conns.contains_key(other) ==> n.conns.contains_key(other) && n.conns[other]
                == m.conns[other]
            &&& !m.conns.contains_key(idx) ==> n.conns[idx].send_size == m.send_size
                && n.conns[idx].streams.dom() == Set::<u64>::empty() && n.conns[idx].prev_bytes_recv
                == 0 && n.conns[idx].prev_bytes_sent == 0 && n.conns[idx].position.received == 0
            &&& other != idx && !m.conns.contains_key(other) ==> !n.conns.contains_key(other)
            &&& n.session_start == m.session_start && n.wandb_key == m.wandb_key
        }),
{
    assert(Map::<u64, StreamModel>::empty().dom() =~= Set::<u64>::empty());
}

/// Replacing a stream keeps every other stream of every connection.
pub proof fn streams_are_replaced_alone(
    m: ServerModel,
    idx: u64,
    stream_id: u64,
    v: StreamModel,
    other: u64,
    id: u64,
)
    requires
        m.conns.contains_key(idx),
    ensures
        stream_at(with_stream(m, idx, stream_id, v), idx, stream_id) == Some(v),
        other != idx || id != stream_id ==> stream_at(with_stream(m, idx, stream_id, v), other, id)
            == stream_at(m, other, id),
{
}

/// A readable stream that the client did not open is ignored. Right after its trigger,
/// a stream is answered with statistics where it asked for them, receives where it
/// announced an upload, and sends otherwise; any other stream receives.
pub proof fn trigger_decides_what_a_stream_does(
    m: ServerModel,
    idx: u64,
    stream_id: u64,
    just_ready: bool,
    v: StreamModel,
)
    requires
        stream_at(m, idx, stream_id) == Some(v),
    ensures
        ({
            let a = readable(m, idx, stream_id, just_ready);
            &&& a is Ignore <==> stream_id % 2 == 1
            &&& a is ReplyStats <==> stream_id % 2 == 0 && just_ready && v.is_stats_request
            &&& a is Pump <==> stream_id % 2 == 0 && just_ready && !v.is_stats_request && v.mode
                is Downlink
            &&& a is Drain <==> stream_id % 2 == 0 && (!just_ready || !v.is_stats_request && v.mode
                is Uplink)
        }),
{
}

/// A session is an uplink session from the first completed trigger that announces an
/// upload on; nothing else makes it one, and nothing else of the counters changes.
pub proof fn upload_makes_the_session_an_uplink(
    m: ServerModel,
    live: LiveCounters,
    idx: u64,
    stream_id: u64,
    just_ready: bool,
    v: StreamModel,
)
    requires
        stream_at(m, idx, stream_id) == Some(v),
    ensures
        ({
            let n = direction_noted(live, just_ready, readable(m, idx, stream_id, just_ready));
            let upload = just_ready && stream_id % 2 == 0 && v.mode is Uplink
                && !v.is_stats_request;
            &&& n.is_uplink <==> live.is_uplink || upload
            &&& n.bytes == live.bytes && n.lost == live.lost && n.sent == live.sent
            &&& n.jitter_bits == live.jitter_bits && n.done == live.done && n.duration_ns
                == live.duration_ns
        }),
{
}

/// A stream that the client opened waits for its trigger from its creation on and is
/// gone once it was closed; one that the server opened is not served. Every other stream
/// stays.
pub proof fn streams_live_from_creation_to_close(
    m: ServerModel,
    idx: u64,
    stream_id: u64,
    other: u64,
    id: u64,
)
    ensures
        ({
            let n = stream_created(m, idx, stream_id);
            let c = stream_closed(n, idx, stream_id);
            let same = other == idx && id == stream_id;
            &&& n.conns.contains_key(idx)
            &&& stream_id % 2 == 0 ==> stream_at(n, idx, stream_id) == Some(new_stream())
            &&& stream_id % 2 == 1 ==> stream_at(n, idx, stream_id) == stream_at(
                m,
                idx,
                stream_id,
            )
            &&& !new_stream().ready && !new_stream().finished && new_stream().trigger.len() == 0
            &&& stream_at(c, idx, stream_id) is None
            &&& c.conns.contains_key(idx)
            &&& !same && m.conns.contains_key(other) ==> stream_at(n, other, id) == stream_at(
                m,
                other,
                id,
            ) && stream_at(c, other, id) == stream_at(m, other, id)
        }),
        !m.conns.contains_key(idx) ==> stream_closed(m, idx, stream_id) == m,
{
}

/// A writable stream of a known connection sends, unless it receives; no stream of an
/// unknown connection does.
pub proof fn receiving_streams_do_not_send(m: ServerModel, idx: u64, stream_id: u64, v: StreamModel)
    ensures
        !m.conns.contains_key(idx) ==> !may_send(m, idx, stream_id),
        stream_at(m, idx, stream_id) == Some(v) ==> (may_send(m, idx, stream_id) <==> v.mode
            is Downlink),
        m.conns.contains_key(idx) && stream_at(m, idx, stream_id) is None ==> may_send(
            m,
            idx,
            stream_id,
        ),
{
}

/// Each algorithm has the label that is its own.
pub proof fn labels_tell_algorithms_apart(a: MultipathAlgorithm, b: MultipathAlgorithm)
    ensures
        a is MinRtt ==> algorithm_label(a) == "minrtt"@,
        a is RoundRobin ==> algorithm_label(a) == "roundrobin"@,
        a is Redundant ==> algorithm_label(a) == "redundant"@,
        a is LinUCB ==> algorithm_label(a) == "linucb"@,
        a is EpsilonGreedy ==> algorithm_label(a) == "egreedy"@,
        algorithm_label(a) == algorithm_label(b) ==> a == b,
{
    reveal_strlit("minrtt");
    reveal_strlit("roundrobin");
    reveal_strlit("redundant");
    reveal_strlit("linucb");
    reveal_strlit("egreedy");
    assert("minrtt"@[0] == 'm');
    assert("roundrobin"@[0] == 'r' && "roundrobin"@[1] == 'o');
    assert("redundant"@[0] == 'r' && "redundant"@[1] == 'e');
    assert("linucb"@[0] == 'l');
    assert("egreedy"@[0] == 'e');
}

// ───────────────────────────── seconds ─────────────────────────────

/// What a second reports is what each counter rose by since the second before, and
/// seconds are numbered one after the other.
pub proof fn second_reports_what_each_counter_rose_by(
    r: IntervalReporter,
    a: LiveCounters,
    b: LiveCounters,
)
    requires
        r.interval < u64::MAX,
        a.bytes <= b.bytes,
        a.lost <= b.lost,
        a.sent <= b.sent,
    ensures
        ({
            let (once, first) = ticked(r, a);
            let (twice, second) = ticked(once, b);
            &&& first.start == r.interval
            &&& second.start == first.start + 1
            &&& second.bytes == b.bytes - a.bytes
            &&& second.lost == b.lost - a.lost
            &&& second.sent == b.sent - a.sent
            &&& second.done == b.done
            &&& twice.session_uplink == r.session_uplink
        }),
{
}

/// A counter that fell reports nothing for that second.
pub proof fn fallen_counter_reports_nothing(
    r: IntervalReporter,
    a: LiveCounters,
    b: LiveCounters,
)
    ensures
        ({
            let second = ticked(ticked(r, a).0, b).1;
            &&& b.bytes <= a.bytes ==> second.bytes == 0
            &&& b.lost <= a.lost ==> second.lost == 0
            &&& b.sent <= a.sent ==> second.sent == 0
        }),
{
}

/// The total of a session is what its counters show; it is there exactly where data
/// flowed. Its duration is the measured one, and otherwise the reported seconds, at
/// least one.
pub proof fn total_is_what_the_counters_show(r: IntervalReporter, live: LiveCounters)
    ensures
        ({
            let t = session_total(r, live);
            &&& t is Some <==> live.bytes > 0
            &&& t matches Some(t) ==> {
                &&& t.bytes == live.bytes
                &&& t.lost == live.lost
                &&& t.sent == live.sent
                &&& t.uplink == live.is_uplink
                &&& live.duration_ns > 0 ==> t.duration_ns == live.duration_ns
                &&& live.duration_ns == 0 && r.interval > 0 ==> t.duration_ns == r.interval
                    * 1_000_000_000
                &&& live.duration_ns == 0 && r.interval == 0 ==> t.duration_ns == 1_000_000_000
            }
        }),
{
}

} // verus!
