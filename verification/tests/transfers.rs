//! Streams, connections and workers of the benchmark.

use tquic_bench::client::{
    bandwidth_bytes, parse_bandwidth_cli, Bandwidth, ClientContext, CloseCause, RunCells,
    TriggerOutcome, WorkerAction, WorkerContext, WorkerOptions,
};
use tquic_bench::framing::{build_datagram, DatagramReader, DATAGRAM_STRIDE};
use tquic_bench::server::{
    scheduler_name, LiveCounters, MultipathAlgorithm, ReadableAction, ServerHandler,
};
use tquic_bench::stats::{accum_conn_stats, ConnectionStats};
use tquic_bench::stream::{
    DrainAction, DrainEvent, PumpAction, PumpEvent, StreamSendState, TriggerStep,
};

// ── framing ──────────────────────────────────────────────────────────────────

fn frames(stamps: &[u64]) -> Vec<u8> {
    let mut out = Vec::new();
    for s in stamps {
        out.extend(build_datagram(*s, DATAGRAM_STRIDE));
    }
    out
}

#[test]
fn datagram_is_a_stamp_and_zeros() {
    let d = build_datagram(0x0102, DATAGRAM_STRIDE);
    assert_eq!(d.len(), 1400);
    assert_eq!(&d[..8], &0x0102u64.to_le_bytes());
    assert!(d[8..].iter().all(|b| *b == 0));
    assert_eq!(build_datagram(u64::MAX, 3), vec![0xFF, 0xFF, 0xFF]);
}

#[test]
fn framed_datagrams_read_back() {
    let mut r = DatagramReader::new();
    assert!(r.feed(&frames(&[100]), 1_000).is_empty());
    assert_eq!(r.last, Some((100, 1_000)));
    // 40 µs later sent, 70 µs later received; then 50 µs later sent at once.
    assert_eq!(r.feed(&frames(&[140, 190]), 1_070), vec![30, 50]);
    assert_eq!(r.app_datagrams_received, 3);
    assert_eq!(r.last, Some((190, 1_070)));
}

#[test]
fn chunks_do_not_matter() {
    let bytes = frames(&[5, 6, 900, 901]);
    let mut whole = DatagramReader::new();
    let all = whole.feed(&bytes, 77);
    for cut in [1usize, 7, 8, 9, 1399, 1400, 1401, 3000] {
        let mut parts = DatagramReader::new();
        let mut found = parts.feed(&bytes[..cut], 77);
        found.extend(parts.feed(&bytes[cut..], 77));
        assert_eq!(found, all);
        assert_eq!(parts.app_datagrams_received, 4);
        assert_eq!(parts.dg_pos, 0);
    }
}

#[test]
fn datagrams_and_position_make_up_the_bytes() {
    let mut r = DatagramReader::new();
    let mut fed = 0;
    for n in [5usize, 1400, 2795, 3, 1] {
        r.feed(&vec![0; n], 0);
        fed += n;
        assert_eq!(r.app_datagrams_received as usize * 1400 + r.dg_pos, fed);
    }
}

#[test]
fn delay_variation_wraps_around() {
    let mut r = DatagramReader::new();
    r.feed(&frames(&[u64::MAX]), 10);
    assert_eq!(r.feed(&frames(&[1]), 10), vec![2]);
}

// ── sending ──────────────────────────────────────────────────────────────────

fn ready(limit: u64) -> StreamSendState {
    let mut s = StreamSendState::new();
    s.ready = true;
    s.bandwidth_limit = limit;
    s
}

/// Runs the pump against a transport that takes at most `room` bytes per write,
/// `budget` in all, and returns what it took and whether the stream was ended.
fn run(s: &mut StreamSendState, send_size: usize, room: usize, budget: usize) -> (Vec<u8>, bool) {
    let mut wire = Vec::new();
    let mut clock = 0;
    let mut event = PumpEvent::Start;
    loop {
        event = match s.pump(send_size, event) {
            PumpAction::Return => return (wire, s.finished),
            PumpAction::WantWrite => {
                if wire.len() >= budget {
                    return (wire, false);
                }
                PumpEvent::Start
            }
            PumpAction::Write { data } => {
                let n = data.len().min(room).min(budget - wire.len());
                if n == 0 {
                    PumpEvent::Blocked
                } else {
                    wire.extend_from_slice(&data[..n]);
                    PumpEvent::Written(n)
                }
            }
            PumpAction::WriteFin => PumpEvent::FinWritten,
            PumpAction::Admit { .. } => {
                clock += 10;
                PumpEvent::Admission { granted: true, now_us: clock }
            }
        };
    }
}

#[test]
fn finite_transfer_sends_exactly_its_size() {
    for room in [1usize, 7, 900, 1400, 5000] {
        let mut s = ready(0);
        let (wire, finished) = run(&mut s, 3000, room, usize::MAX);
        assert!(finished);
        assert_eq!(wire.len(), 3000);
        assert_eq!(s.bytes_sent, 3000);
        assert_eq!(wire[..], frames(&[10, 20, 30])[..3000]);
    }
}

#[test]
fn unlimited_transfer_goes_on_after_backpressure() {
    let mut s = ready(0);
    let (mut wire, finished) = run(&mut s, 0, 1000, 2000);
    assert!(!finished);
    let (more, _) = run(&mut s, 0, 1400, 5000);
    wire.extend(more);
    let mut r = DatagramReader::new();
    r.feed(&wire, 0);
    assert_eq!(r.app_datagrams_received, 5);
    assert_eq!(wire[1400..1408], 20u64.to_le_bytes());
    assert_eq!(wire[2800..2808], 10u64.to_le_bytes());
}

#[test]
fn send_times_rise_with_the_clock() {
    let mut s = ready(0);
    let (wire, _) = run(&mut s, 0, 900, 14_000);
    let times: Vec<u8> = wire.chunks(1400).map(|d| d[0]).collect();
    assert_eq!(times, vec![10, 20, 30, 40, 50, 60, 70, 80, 90, 100]);
}

#[test]
fn nothing_is_sent_before_the_trigger_or_after_the_end() {
    let mut s = StreamSendState::new();
    assert!(matches!(s.pump(0, PumpEvent::Start), PumpAction::Return));
    let mut s = ready(0);
    s.pump(0, PumpEvent::Start);
    s.finished = true;
    assert!(matches!(s.pump(0, PumpEvent::Start), PumpAction::Return));
}

#[test]
fn rate_limit_is_asked_for_the_whole_datagram() {
    let mut s = ready(5000);
    match s.pump(1500, PumpEvent::Start) {
        PumpAction::Admit { bytes, limit } => assert_eq!((bytes, limit), (1400, Some(5000))),
        _ => panic!("no admission asked for"),
    }
    let refused = s.pump(1500, PumpEvent::Admission { granted: false, now_us: 1 });
    assert!(matches!(refused, PumpAction::WantWrite));
    s.pump(1500, PumpEvent::Start);
    s.pump(1500, PumpEvent::Admission { granted: true, now_us: 2 });
    match s.pump(1500, PumpEvent::Written(1400)) {
        PumpAction::Admit { bytes, .. } => assert_eq!(bytes, 100),
        _ => panic!("no admission asked for"),
    }
    assert!(matches!(s.pump(1500, PumpEvent::Failed), PumpAction::Return));
}

#[test]
fn untaken_datagram_gets_a_fresh_stamp() {
    let mut s = ready(0);
    s.pump(0, PumpEvent::Start);
    s.pump(0, PumpEvent::Admission { granted: true, now_us: 7 });
    assert!(matches!(s.pump(0, PumpEvent::Blocked), PumpAction::WantWrite));
    assert!(matches!(s.pump(0, PumpEvent::Start), PumpAction::Admit { .. }));
    match s.pump(0, PumpEvent::Admission { granted: true, now_us: 9 }) {
        PumpAction::Write { data } => assert_eq!(data[..8], 9u64.to_le_bytes()),
        _ => panic!("nothing to write"),
    }
}

// ── server ───────────────────────────────────────────────────────────────────

fn server(send_size: usize) -> ServerHandler {
    ServerHandler::new(send_size, MultipathAlgorithm::LinUCB, "key".to_string())
}

fn trigger(mode: u8, bandwidth: u64) -> Vec<u8> {
    let mut v = vec![mode];
    v.extend(bandwidth.to_le_bytes());
    v
}

#[test]
fn scheduler_names_are_short() {
    assert_eq!(scheduler_name(MultipathAlgorithm::MinRtt), "minrtt");
    assert_eq!(scheduler_name(MultipathAlgorithm::RoundRobin), "roundrobin");
    assert_eq!(scheduler_name(MultipathAlgorithm::Redundant), "redundant");
    assert_eq!(scheduler_name(MultipathAlgorithm::EpsilonGreedy), "egreedy");
    assert_eq!(server(0).scheduler_name, "linucb");
    assert!(ServerHandler::new(0, MultipathAlgorithm::MinRtt, String::new()).wandb_key.is_none());
}

#[test]
fn downlink_stream_is_pumped() {
    let mut h = server(100);
    let mut live = LiveCounters::new();
    h.on_conn_established(3, 1_000);
    h.on_stream_created(3, 0);
    h.on_stream_created(3, 5); // not a client stream
    assert_eq!(h.conns[&3].streams.len(), 1);
    assert!(matches!(h.parse_trigger(3, 5, &[0], true), TriggerStep::NotWaiting));
    let t = trigger(0, 12);
    assert!(matches!(h.parse_trigger(3, 0, &t[..4], false), TriggerStep::ReadAgain));
    assert!(matches!(h.parse_trigger(3, 0, &[], false), TriggerStep::Wait));
    assert!(matches!(h.parse_trigger(3, 0, &t[4..], true), TriggerStep::Ready));
    assert!(matches!(h.parse_trigger(3, 0, &t, true), TriggerStep::NotWaiting));
    assert_eq!(h.on_stream_readable(3, 0, true, &mut live), ReadableAction::Pump);
    assert!(!live.is_uplink);
    assert!(h.on_stream_writable(3, 0));
    assert!(!h.on_stream_writable(9, 0));
    assert!(matches!(h.pump(3, 0, PumpEvent::Start), PumpAction::Admit { bytes: 100, limit: Some(12) }));
    assert!(matches!(h.pump(3, 8, PumpEvent::Start), PumpAction::Return));

    let mut stats = ConnectionStats::default();
    stats.sent_bytes = 500;
    stats.sent_count = 4;
    stats.lost_count = 1;
    h.update_downlink(3, &stats, &mut live);
    stats.sent_bytes = 700;
    h.update_downlink(3, &stats, &mut live);
    h.update_downlink(3, &stats, &mut live);
    assert_eq!((live.bytes, live.sent, live.lost), (700, 4, 1));
    h.update_uplink(3, &stats, &mut live);
    assert_eq!(live.bytes, 700);

    h.on_stream_closed(3, 0);
    assert!(h.conns[&3].streams.is_empty());
    let report = h.on_conn_closed(3, 5_000, 2, true, &mut live);
    assert!(report.per_path);
    assert_eq!(report.upload_key, Some("key".to_string()));
    assert!(h.wandb_key.is_none() && h.conns.is_empty() && h.session_start.is_none());
    assert_eq!((live.duration_ns, live.done), (4_000, true));
}

#[test]
fn uplink_stream_is_drained_and_answered_once() {
    let mut h = server(0);
    let mut live = LiveCounters::new();
    h.on_stream_created(1, 4);
    h.parse_trigger(1, 4, &trigger(1, 0), false);
    assert_eq!(h.on_stream_readable(1, 4, true, &mut live), ReadableAction::Drain);
    assert!(live.is_uplink);
    assert!(!h.on_stream_writable(1, 4));
    assert_eq!(h.drain_uplink(1, 4, DrainEvent::Start).1, DrainAction::Read);
    let read = |data: Vec<u8>, fin: bool| DrainEvent::Read { data, fin, recv_us: 50 };
    let (found, action) = h.drain_uplink(1, 4, read(frames(&[10, 30]), true));
    assert_eq!((found, action), (vec![20], DrainAction::Read));
    let (_, action) = h.drain_uplink(1, 4, DrainEvent::Blocked);
    assert_eq!(action, DrainAction::Reply { recv_count: 2 });
    assert_eq!(h.drain_uplink(1, 4, DrainEvent::Blocked).1, DrainAction::Return);
    h.drain_uplink(1, 4, DrainEvent::Start);
    assert_eq!(h.drain_uplink(1, 4, read(Vec::new(), true)).1, DrainAction::Return);
    assert_eq!(h.datagrams_received(1), 2);

    let mut stats = ConnectionStats::default();
    stats.recv_bytes = 2800;
    stats.lost_count = 3;
    h.update_uplink(1, &stats, &mut live);
    assert_eq!((live.bytes, live.sent, live.lost), (2800, 2, 3));
    let report = h.on_conn_closed(1, 0, 2, true, &mut live);
    assert!(report.upload_key.is_none());
    assert!(h.wandb_key.is_some());
}

#[test]
fn stats_request_is_answered() {
    let mut h = server(0);
    let mut live = LiveCounters::new();
    h.on_stream_created(1, 0);
    assert!(matches!(h.parse_trigger(1, 0, &[0xFF], true), TriggerStep::Ready));
    assert_eq!(h.on_stream_readable(1, 0, true, &mut live), ReadableAction::ReplyStats);
    assert_eq!(h.on_stream_readable(1, 3, true, &mut live), ReadableAction::Ignore);
    assert_eq!(h.on_stream_readable(1, 0, false, &mut live), ReadableAction::Drain);
    assert_eq!(h.drain_uplink(1, 0, DrainEvent::Start).1, DrainAction::Return);
}

// ── client ───────────────────────────────────────────────────────────────────

fn options() -> WorkerOptions {
    WorkerOptions {
        streams_per_conn: 3,
        bandwidth: 0x0201,
        max_concurrent_conns: 2,
        connection_failure_threshold: 2,
        duration: 5,
    }
}

fn scaled(s: &str) -> (String, u64) {
    match parse_bandwidth_cli(s) {
        Ok(Bandwidth::Scaled { number, multiplier }) => (number, multiplier),
        _ => panic!("not a scaled bandwidth"),
    }
}

#[test]
fn bandwidths_are_read() {
    assert!(matches!(parse_bandwidth_cli(" 0 "), Ok(Bandwidth::Zero)));
    assert_eq!(scaled("500M"), ("500".to_string(), 1_000_000));
    assert_eq!(scaled("1g"), ("1".to_string(), 1_000_000_000));
    assert_eq!(scaled("2.5G"), ("2.5".to_string(), 1_000_000_000));
    assert_eq!(scaled("7k\n"), ("7".to_string(), 1_000));
    assert_eq!(scaled("800"), ("800".to_string(), 1));
    assert_eq!(bandwidth_bytes(500_000_000), 62_500_000);
    assert!(matches!(parse_bandwidth_cli(" 5X "), Err(e) if e == "invalid bandwidth '5X'"));
    assert!(parse_bandwidth_cli("").is_err());
    assert!(parse_bandwidth_cli("G").is_err());
}

#[test]
fn worker_exits_when_it_should() {
    let mut w = WorkerContext::new(options(), None, 0);
    assert!(w.should_exit(true, 0));
    assert!(!w.should_exit(false, 4_999_999_999));
    assert!(w.should_exit(false, 5_000_000_000));
    w.conn_finish_failed = 2;
    assert!(w.should_exit(false, 0));
    w.on_conn_established();
    assert!(!w.should_exit(false, 0));
}

#[test]
fn worker_connects_up_to_its_limit_and_closes_all() {
    let mut w = WorkerContext::new(options(), None, 0);
    assert!(matches!(w.process(false, 0), WorkerAction::Connect));
    w.on_connect();
    w.on_connect();
    assert!(matches!(w.process(false, 0), WorkerAction::Wait));
    w.on_conn_created(7);
    w.on_conn_created(9);
    match w.process(true, 42) {
        WorkerAction::Close { mut conns } => {
            conns.sort();
            assert_eq!(conns, vec![7, 9]);
        }
        _ => panic!("not closed"),
    }
    assert_eq!(w.end_time, Some(42));
    w.process(true, 50);
    assert_eq!(w.end_time, Some(42));
}

#[test]
fn trigger_streams_are_numbered_by_four() {
    let mut w = WorkerContext::new(options(), None, 0);
    w.on_conn_created(1);
    assert_eq!(w.trigger_bytes(), vec![0, 1, 2, 0, 0, 0, 0, 0, 0]);
    assert_eq!(w.open_trigger_streams(1, 0, None), Some(0));
    assert_eq!(w.open_trigger_streams(1, 1, Some(TriggerOutcome::Written)), Some(4));
    assert_eq!(w.open_trigger_streams(1, 2, Some(TriggerOutcome::Failed)), Some(4));
    assert_eq!(w.open_trigger_streams(1, 3, Some(TriggerOutcome::Written)), None);
    assert_eq!(w.receivers[&1].streams_opened, 2);
    assert_eq!(w.open_trigger_streams(1, 1, Some(TriggerOutcome::LimitReached)), None);
    assert_eq!(w.open_trigger_streams(2, 0, None), None);
}

#[test]
fn server_learns_the_rate_from_the_clients_trigger() {
    for bandwidth in [0u64, 5, 0xFF, 62_500_000, u64::MAX] {
        let w = WorkerContext::new(WorkerOptions { bandwidth, ..options() }, None, 0);
        let mut h = server(100);
        h.on_stream_created(1, 0);
        assert!(matches!(h.parse_trigger(1, 0, &w.trigger_bytes(), true), TriggerStep::Ready));
        match h.pump(1, 0, PumpEvent::Start) {
            PumpAction::Admit { bytes, limit } => {
                let expected = if bandwidth == 0 { None } else { Some(bandwidth) };
                assert_eq!((bytes, limit), (100, expected));
            }
            _ => panic!("nothing is sent"),
        }
    }
}

#[test]
fn connection_outcomes_add_up() {
    let mut w = WorkerContext::new(options(), None, 0);
    for idx in 0..3 {
        w.on_connect();
        w.on_conn_created(idx);
    }
    w.on_stream_data(0, 100);
    w.on_stream_data(0, 11);
    w.open_trigger_streams(0, 1, Some(TriggerOutcome::Written));
    w.open_trigger_streams(0, 2, Some(TriggerOutcome::Written));
    assert!(!w.on_stream_closed(0));
    assert!(w.on_stream_closed(0));
    assert_eq!(w.concurrent_conns, 2);
    let stats = ConnectionStats { recv_count: 5, ..ConnectionStats::default() };
    w.on_conn_closed(0, &stats, Some(vec![1, 2]), CloseCause::Local);
    w.on_conn_closed(1, &stats, None, CloseCause::Peer);
    w.on_conn_closed(2, &stats, None, CloseCause::Failure);
    assert_eq!(w.concurrent_conns, 0);
    assert_eq!((w.conn_finish, w.conn_finish_success, w.conn_finish_failed), (3, 2, 1));
    assert_eq!((w.bytes_received, w.conn_stats.recv_count), (111, 15));
    assert_eq!(w.session, Some(vec![1, 2]));
    assert!(w.receivers.is_empty());
}

#[test]
fn workers_are_merged_and_reported() {
    let mut a = WorkerContext::new(options(), Some(vec![9]), 0);
    a.bytes_received = 10;
    a.conn_total = 1;
    a.end_time = Some(5);
    let mut b = WorkerContext::new(options(), None, 0);
    b.bytes_received = 32;
    b.conn_total = 2;
    b.conn_finish_success = 2;
    b.end_time = Some(3);
    let mut c = ClientContext::new();
    a.finish(&mut c);
    b.finish(&mut c);
    assert_eq!((c.bytes_received, c.conn_total, c.end_time), (42, 3, Some(5)));
    assert_eq!(c.session, None);
    assert_eq!(c.duration_ns(2, 100), 3);
    assert_eq!(ClientContext::new().duration_ns(2, 100), 98);
    let cells = RunCells {
        secs: "1.000".to_string(),
        gigabytes: "0.000".to_string(),
        gbps: "0.000".to_string(),
        mbps: "0.0".to_string(),
    };
    assert_eq!(
        c.print_stats(&cells),
        vec![
            "",
            "[ rawquic ] Reverse-mode throughput (server → client)",
            "  Duration  : 1.000 s",
            "  Transfer  : 42 bytes  (0.000 GB)",
            "  Bitrate   : 0.000 Gbits/sec  (0.0 Mbits/sec)",
            "  Conns     : total 3, ok 2, failed 0",
            "  Pkts  recv/sent/lost : 0/0/0",
            "  Bytes recv/sent/lost : 0/0/0",
            "",
        ]
    );
}

#[test]
fn connection_stats_are_summed() {
    let mut total = ConnectionStats { recv_count: 1, sent_bytes: 2, ..ConnectionStats::default() };
    let one = ConnectionStats {
        recv_count: 1,
        recv_bytes: 2,
        sent_count: 3,
        sent_bytes: 4,
        lost_count: 5,
        lost_bytes: 6,
    };
    accum_conn_stats(&mut total, &one);
    assert_eq!(total.recv_count, 2);
    assert_eq!(total.sent_bytes, 6);
    assert_eq!((total.recv_bytes, total.sent_count), (2, 3));
    assert_eq!((total.lost_count, total.lost_bytes), (5, 6));
}

#[test]
fn workers_merge_in_either_order() {
    let mut a = WorkerContext::new(options(), None, 0);
    a.bytes_received = 10;
    a.conn_finish_failed = 4;
    a.end_time = Some(9);
    let mut b = WorkerContext::new(options(), None, 0);
    b.bytes_received = 7;
    b.conn_stats.sent_count = 3;
    let (mut ab, mut ba) = (ClientContext::new(), ClientContext::new());
    a.finish(&mut ab);
    b.finish(&mut ab);
    b.finish(&mut ba);
    a.finish(&mut ba);
    assert_eq!((ab.bytes_received, ab.conn_finish_failed, ab.end_time), (17, 4, Some(9)));
    assert_eq!((ba.bytes_received, ba.conn_finish_failed, ba.end_time), (17, 4, Some(9)));
    assert_eq!(ab.conn_stats, ba.conn_stats);
}
