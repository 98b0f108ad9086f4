//! Commands, process state, results, uploads and kernel counters.

use std::time::{SystemTime, UNIX_EPOCH};

use tquic_bench::commands::{
    client_args, client_start_gate, derived_server_api_url, effective_handshake_timeout, is_uplink,
    rr_downlink_warning, server_args, StartGate,
};
use tquic_bench::control::{AppState, ClientStart, OutputStream, ServerStart, Side};
use tquic_bench::intervals::parse_interval_line;
use tquic_bench::kernel_net_stats::{
    counter_path, default_iface, parse_proc_net_snmp, read_sysfs_u64, snapshot, InterfaceTexts,
    KernelNetSnapshot, SnmpError,
};
use tquic_bench::models::{
    default_cc, default_listen, default_log, default_mode, ClientStartRequest, ServerStartRequest,
};
use tquic_bench::results::{
    fmt_float, interval_sample, last_json_result, line_sample, server_last_json_result,
    server_sample_source, DoubleText, Field, RowDoubles, Sample, SampleCells, SampleSource,
};
use tquic_bench::state::{ChildPoll, ProcessState, OUTPUT_CAP};
use tquic_bench::wandb_logger::{
    bearer, create_query, creation_from, entity_from, graphql_url, read_creation, read_entity,
    run_name, upload_succeeded, viewer_query, WandbError, WandbLogger,
};

// ── commands ─────────────────────────────────────────────────────────────────

fn text(s: &str) -> String {
    s.to_string()
}

fn server_request() -> ServerStartRequest {
    ServerStartRequest {
        cert: text("cert.crt"),
        key: text("cert.key"),
        listen: default_listen(),
        congestion_control: default_cc(),
        initial_congestion_window: None,
        min_congestion_window: None,
        log_level: default_log(),
        log_file: None,
        qlog_dir: None,
        enable_multipath: false,
        multipath_algor: Some(text("RoundRobin")),
        send_udp_payload_size: None,
        recv_udp_payload_size: None,
        handshake_timeout: None,
        idle_timeout: None,
        initial_rtt: None,
        pto_linear_factor: None,
        max_pto: None,
        anti_amplification_factor: None,
        send_batch_size: None,
        enable_retry: false,
        zerortt_buffer_size: None,
        disable_encryption: false,
        work_dir: None,
        keylog_file: None,
        extra_args: Vec::new(),
    }
}

fn client_request() -> ClientStartRequest {
    ClientStartRequest {
        connect_to: text("10.1.100.221:4433"),
        local_addresses: vec![text("10.1.100.142"), text("10.1.100.138")],
        duration: Some(20),
        streams_per_conn: None,
        bandwidth: Some(text("500M")),
        mode: default_mode(),
        congestion_control: text("BBR"),
        initial_congestion_window: None,
        min_congestion_window: None,
        log_level: default_log(),
        log_file: None,
        qlog_dir: None,
        enable_multipath: true,
        multipath_algor: Some(text("RoundRobin")),
        linucb_alpha: None,
        send_udp_payload_size: None,
        recv_udp_payload_size: None,
        handshake_timeout: None,
        idle_timeout: None,
        initial_rtt: None,
        pto_linear_factor: None,
        max_pto: None,
        send_batch_size: None,
        threads: None,
        max_concurrent_conns: None,
        max_concurrent_requests: None,
        keylog_file: None,
        disable_encryption: false,
        work_dir: None,
        extra_args: Vec::new(),
    }
}

#[test]
fn defaults_are_the_documented_ones() {
    assert_eq!(default_listen(), "0.0.0.0:4433");
    assert_eq!(default_cc(), "cubic");
    assert_eq!(default_log(), "info");
    assert_eq!(default_mode(), "downlink");
}

#[test]
fn server_command_line() {
    let mut req = server_request();
    assert_eq!(
        server_args(&req).join(" "),
        "-c cert.crt -k cert.key --listen 0.0.0.0:4433 --congestion-control-algor cubic --log-level info"
    );
    req.enable_multipath = true;
    req.initial_rtt = Some(100);
    req.zerortt_buffer_size = Some(7);
    req.enable_retry = true;
    req.disable_encryption = true;
    req.keylog_file = Some(text("k"));
    req.log_file = Some(text("l"));
    req.qlog_dir = Some(text("q"));
    req.extra_args = vec![text("--active-cid-limit"), text("4")];
    assert_eq!(
        server_args(&req).join(" "),
        "-c cert.crt -k cert.key --listen 0.0.0.0:4433 --congestion-control-algor cubic --log-level info --initial-rtt 100 --zerortt-buffer-size 7 --enable-multipath --multipath-algor RoundRobin --enable-retry --disable-encryption --keylog-file k --log-file l --qlog-dir q --active-cid-limit 4"
    );
}

#[test]
fn client_command_line() {
    let mut req = client_request();
    assert_eq!(
        client_args(&req).join(" "),
        "--connect-to 10.1.100.221:4433 --congestion-control-algor BBR --log-level info --mode downlink --local-addresses 10.1.100.142 --local-addresses 10.1.100.138 --duration 20 --bandwidth 500M --handshake-timeout 10000 --enable-multipath --multipath-algor RoundRobin"
    );
    req.handshake_timeout = Some(9);
    req.linucb_alpha = Some(text("0.5"));
    req.enable_multipath = false;
    assert_eq!(effective_handshake_timeout(&req), 9);
    let line = client_args(&req).join(" ");
    assert!(line.ends_with("--handshake-timeout 9"));
    req.enable_multipath = true;
    req.multipath_algor = None;
    assert!(client_args(&req).join(" ").ends_with("--enable-multipath --linucb-alpha 0.5"));
}

#[test]
fn round_robin_without_effect_is_warned_about() {
    let mut req = client_request();
    assert!(rr_downlink_warning(&req).unwrap().starts_with("downlink uses server-side scheduler"));
    req.mode = text("DownLink");
    req.multipath_algor = Some(text("ROUNDROBIN"));
    assert!(rr_downlink_warning(&req).is_some());
    req.multipath_algor = Some(text("minrtt"));
    assert!(rr_downlink_warning(&req).is_none());
    req.multipath_algor = Some(text("RoundRobin"));
    req.mode = text("uplink");
    assert!(rr_downlink_warning(&req).is_none());
    assert!(is_uplink(&req));
    req.mode = text("Uplink");
    assert!(!is_uplink(&req));
}

#[test]
fn server_address_is_derived() {
    assert_eq!(derived_server_api_url("10.0.0.1:4433"), Some(text("http://10.0.0.1:8000")));
    assert_eq!(derived_server_api_url("[::1]:4433"), Some(text("http://[::1]:8000")));
    assert_eq!(derived_server_api_url("host"), None);
}

#[test]
fn start_waits_for_the_previous_client() {
    assert_eq!(client_start_gate(false, 99_999), StartGate::Proceed);
    assert_eq!(client_start_gate(true, 0), StartGate::Wait { ms: 200 });
    assert_eq!(client_start_gate(true, 19_999), StartGate::Wait { ms: 200 });
    assert_eq!(client_start_gate(true, 20_000), StartGate::Refuse);
}

// ── processes ────────────────────────────────────────────────────────────────

#[test]
fn process_state_follows_its_child() {
    let mut p = ProcessState::new();
    assert!(!p.is_running(ChildPoll::Alive));
    assert_eq!(p.stop(Ok(())), Err(text("not running")));
    p.started(Some(17));
    assert!(p.can_stop());
    assert!(p.is_running(ChildPoll::Alive));
    assert!(!p.is_running(ChildPoll::Unknown));
    assert_eq!(p.pid, Some(17));
    assert_eq!(p.stop(Err(text("denied"))), Err(text("denied")));
    assert!(p.can_stop());
    assert_eq!(p.stop(Ok(())), Ok(()));
    assert_eq!(p.pid, None);
    p.started(None);
    let s = p.status_snapshot(ChildPoll::Exited);
    assert!(!s.running && s.pid.is_none());
    assert!(!p.can_stop());
}

#[test]
fn latest_output_is_kept() {
    let mut p = ProcessState::new();
    for i in 0..OUTPUT_CAP + 5 {
        p.push_line(format!("line {i}"));
    }
    let s = p.status_snapshot(ChildPoll::Alive);
    assert_eq!(s.output.len(), 1000);
    assert_eq!(s.output[0], "line 5");
    assert_eq!(s.output[999], "line 1004");
    p.clear_output();
    assert!(p.status_snapshot(ChildPoll::Alive).output.is_empty());
}

const ROW: &str = "  0.00-1.00 s    4.38 MB  35.04 Mbits/sec  54/3129 (1.73%)  #path5G=7.86Mbps";

fn doubles() -> RowDoubles {
    RowDoubles {
        timestamp: 1.5f64.to_bits(),
        interval_end: 1.0f64.to_bits(),
        throughput: 35.04f64.to_bits(),
        jitter: 9.0f64.to_bits(),
        packet_loss: 1.73f64.to_bits(),
        path5g: 7.86f64.to_bits(),
        pathsat: 9.0f64.to_bits(),
    }
}

#[test]
fn captured_rows_become_samples() {
    let mut a = AppState::new();
    for line in ["hello", ROW, "- - - -", "  0.00-9.00 s  1 MB  1 Mbits/sec  5  sender", ROW] {
        a.capture_line(Side::Client, OutputStream::Stdout, text(line), &doubles());
    }
    assert_eq!((a.last_client.len(), a.last_server.len()), (2, 0));
    let s = &a.last_client[0];
    assert_eq!(double_of(s, "throughput"), Some(35.04));
    assert_eq!(double_of(s, "jitter"), Some(0.0));
    assert_eq!(double_of(s, "packetLoss"), Some(1.73));
    assert_eq!(double_of(s, "5G_throughput"), Some(7.86));
    assert_eq!(double_of(s, "sat_throughput"), None);
    assert!(line_sample("hello", &doubles()).is_none());
}

#[test]
fn starts_reset_what_they_should() {
    let mut a = AppState::new();
    match a.server_start(&server_request(), ChildPoll::Unknown) {
        ServerStart::Spawn { args } => assert_eq!(args[0], "-c"),
        _ => panic!("not started"),
    }
    a.server.started(Some(4));
    let out = OutputStream::Stdout;
    a.capture_line(Side::Server, out, text("hello"), &doubles());
    a.capture_line(Side::Server, out, text(ROW), &doubles());
    a.capture_line(Side::Client, out, text(ROW), &doubles());
    a.capture_line(Side::Client, OutputStream::Stderr, text(ROW), &doubles());
    assert_eq!((a.last_server.len(), a.last_client.len()), (1, 1));
    let again = a.server_start(&server_request(), ChildPoll::Alive);
    assert!(matches!(again, ServerStart::AlreadyRunning { pid: Some(4) }));
    assert_eq!(a.last_server.len(), 1);

    let mut req = client_request();
    req.mode = text("uplink");
    let start = a.client_start(ChildPoll::Alive, 0);
    assert!(matches!(start, ClientStart::Cooldown { ms: 750 }));
    assert_eq!(a.last_client.len(), 1);
    let spawn = a.client_spawn(&req);
    assert_eq!(spawn.args[1], "10.1.100.221:4433");
    assert_eq!(spawn.clear_url, Some(text("http://10.1.100.221:8000/server/clear")));
    assert_eq!(spawn.handshake_timeout, 10_000);
    assert!(spawn.warning.is_none());
    assert!(a.last_mode_uplink);
    assert!(a.last_server.is_empty() && a.last_client.is_empty());
    assert_eq!(a.server_api_url, Some(text("http://10.1.100.221:8000")));
    a.client.started(Some(5));
    assert!(matches!(a.client_start(ChildPoll::Alive, 0), ClientStart::Wait { ms: 200 }));
    let late = a.client_start(ChildPoll::Alive, 20_000);
    assert!(matches!(late, ClientStart::StillRunning { pid: Some(5) }));
    let both = a.overall_status(ChildPoll::Alive, ChildPoll::Exited);
    assert_eq!((both.server.running, both.client.running), (true, false));
    assert_eq!(both.server.output, vec![text("hello"), text(ROW)]);
    assert_eq!(a.client.pid, None);
    a.capture_line(Side::Server, out, text(ROW), &doubles());
    a.server_clear();
    assert!(a.last_server.is_empty());
}

// ── results ──────────────────────────────────────────────────────────────────

fn number_sample(end: f64) -> Sample {
    interval_sample(
        1.5f64.to_bits(),
        end.to_bits(),
        500.0f64.to_bits(),
        0.25f64.to_bits(),
        2.0f64.to_bits(),
        None,
        None,
    )
}

fn double_of(s: &Sample, key: &str) -> Option<f64> {
    match s {
        Sample::Object { fields } => fields.iter().find(|f| f.0 == key).and_then(|f| match &f.1 {
            Field::Number { bits } => Some(f64::from_bits(*bits)),
            Field::Raw { double, .. } => double.map(f64::from_bits),
        }),
        Sample::Other { .. } => None,
    }
}

#[test]
fn timestamp_is_positive() {
    let line = "  0.00-1.00 s    59.60 MB  500.00 Mbits/sec  52051";
    let v = parse_interval_line(line).expect("should parse");
    let ts = SystemTime::now().duration_since(UNIX_EPOCH).map(|d| d.as_secs_f64()).unwrap_or(0.0);
    let end: f64 = v.interval_end.unwrap().parse().unwrap();
    let rate: f64 = v.throughput.parse().unwrap();
    let s = interval_sample(ts.to_bits(), end.to_bits(), rate.to_bits(), 0, 0, None, None);
    assert!(double_of(&s, "timestamp").unwrap() > 0.0);
    assert_eq!(double_of(&s, "throughput"), Some(500.0));
    assert_eq!(double_of(&s, "5G_throughput"), None);
}

#[test]
fn doubles_that_json_cannot_write_become_null() {
    let s = interval_sample(f64::NAN.to_bits(), 1, f64::INFINITY.to_bits(), 0, 0, None, None);
    assert_eq!(double_of(&s, "timestamp"), None);
    assert_eq!(double_of(&s, "throughput"), None);
    assert_eq!(double_of(&s, "interval_end"), Some(f64::from_bits(1)));
    match &s {
        Sample::Object { fields } => {
            assert!(matches!(&fields[0].1, Field::Raw { text, .. } if text == "null"));
            assert!(matches!(fields[3].1, Field::Number { bits: 0 }));
        }
        Sample::Other { .. } => panic!("not an object"),
    }
}

#[test]
fn uplink_result_is_the_servers_with_the_clients_rates() {
    let client = vec![
        interval_sample(0, 1.0f64.to_bits(), 0, 0, 0, Some(1.0f64.to_bits()), None),
        interval_sample(
            0,
            1.0f64.to_bits(),
            0,
            0,
            7.0f64.to_bits(),
            Some(30.0f64.to_bits()),
            Some(40.0f64.to_bits()),
        ),
        Sample::Other { text: text("null") },
    ];
    let server = vec![number_sample(1.0), number_sample(2.0), Sample::Other { text: text("3") }];
    let r = last_json_result(true, client, server);
    assert_eq!(r.len(), 3);
    assert_eq!(double_of(&r[0], "5g_throughput"), Some(30.0));
    assert_eq!(double_of(&r[0], "satellite_throughput"), Some(40.0));
    assert_eq!(double_of(&r[0], "packetLoss"), Some(7.0));
    assert_eq!(double_of(&r[0], "throughput"), Some(500.0));
    assert_eq!(double_of(&r[0], "total_throughput"), None);
    assert_eq!(double_of(&r[0], "interval_end"), None);
    assert_eq!(double_of(&r[1], "5g_throughput"), None);
    assert_eq!(double_of(&r[1], "packetLoss"), Some(2.0));
    assert!(matches!(&r[2], Sample::Other { text } if text == "3"));
}

#[test]
fn downlink_result_is_the_clients_with_the_servers_loss() {
    let mut odd = number_sample(2.0);
    if let Sample::Object { fields } = &mut odd {
        fields.retain(|f| f.0 != "throughput");
        fields.push((text("note"), Field::Raw { text: text("\"x\""), double: None }));
    }
    let client = vec![number_sample(1.0), odd];
    let server = vec![
        interval_sample(0, 1.0f64.to_bits(), 0, 0, 9.0f64.to_bits(), None, None),
        Sample::Object {
            fields: vec![
                (text("interval_end"), Field::Raw { text: text("2.0"), double: Some(2.0f64.to_bits()) }),
                (text("packetLoss"), Field::Raw { text: text("null"), double: None }),
            ],
        },
    ];
    let r = last_json_result(false, client, server);
    assert_eq!(double_of(&r[0], "sender_packetLoss"), Some(9.0));
    assert_eq!(double_of(&r[0], "packetLoss"), Some(2.0));
    assert_eq!(double_of(&r[1], "sender_packetLoss"), None);
    assert_eq!(double_of(&r[1], "throughput"), None);
    match &r[1] {
        Sample::Object { fields } => assert!(fields.iter().any(|f| f.0 == "note")),
        Sample::Other { .. } => panic!("not an object"),
    }
}

#[test]
fn server_samples_come_from_the_nearest_source() {
    let url = Some(text("http://h:8000"));
    assert!(matches!(server_sample_source(2, &url), SampleSource::Local));
    match server_sample_source(0, &url) {
        SampleSource::Remote { url } => assert_eq!(url, "http://h:8000/server/intervals"),
        _ => panic!("not remote"),
    }
    assert!(matches!(server_sample_source(0, &None), SampleSource::Nothing));
}

fn rendered(v: f64) -> DoubleText {
    DoubleText { bits: v.to_bits(), text: format!("{v:?}") }
}

#[test]
fn plain_text_result() {
    assert_eq!(fmt_float(&rendered(0.0)), "0");
    assert_eq!(fmt_float(&rendered(-0.0)), "0");
    assert_eq!(fmt_float(&rendered(500.0)), "500.0");
    let cells = |loss: f64| SampleCells {
        timestamp: text("1.500000"),
        throughput: rendered(500.0),
        jitter: rendered(0.25),
        packet_loss: rendered(loss),
    };
    assert_eq!(
        server_last_json_result(&vec![cells(0.0), cells(1.5)]),
        "Last Json Result: [{'timestamp': 1.500000, 'throughput': 500.0, 'jitter': 0.25, 'packetLoss': 0}, {'timestamp': 1.500000, 'throughput': 500.0, 'jitter': 0.25, 'packetLoss': 1.5}]"
    );
    assert_eq!(server_last_json_result(&Vec::new()), "Last Json Result: []");
}

// ── uploads ──────────────────────────────────────────────────────────────────

#[test]
fn account_is_read_from_the_answer() {
    let body = "{\"data\":{\"viewer\":{\"entity\":\"ann\"}}}";
    assert_eq!(read_entity(body), Ok(text("ann")));
    assert_eq!(read_entity("{\"data\":null}"), Err(WandbError::NoEntity));
    assert_eq!(read_entity("{\"data\":{\"viewer\":{\"entity\":5}}}"), Err(WandbError::NoEntity));
    assert_eq!(read_entity("oops"), Err(WandbError::NotJson));
    assert_eq!(entity_from(Some(Some(text("bob")))), Ok(text("bob")));
    assert_eq!(entity_from(Some(None)), Err(WandbError::NoEntity));
    assert_eq!(entity_from(None), Err(WandbError::NotJson));
}

#[test]
fn refused_runs_are_noticed() {
    assert_eq!(read_creation("{\"data\":{}}"), Ok(()));
    assert_eq!(read_creation("{\"errors\":[]}"), Ok(()));
    assert_eq!(read_creation("{\"errors\":[1,2]}"), Err(WandbError::Refused { errors: 2 }));
    assert_eq!(read_creation(""), Err(WandbError::NotJson));
    assert_eq!(creation_from(Some(Some(3))), Err(WandbError::Refused { errors: 3 }));
}

#[test]
fn uploads_are_addressed_and_terminated() {
    let name = run_name("linucb", 1_700_000_000_123);
    assert_eq!(name, "tquic-linucb-1700000000123");
    let w = WandbLogger::new(text("k"), text("ann"), text("quic"), name);
    assert_eq!(w.run_url, "https://wandb.ai/ann/quic/runs/tquic-linucb-1700000000123");
    assert!(w.upload_history(&Vec::new()).is_none());
    let u = w.upload_history(&vec![text("{}"), text("[]")]).unwrap();
    assert_eq!(
        u.url,
        "https://api.wandb.ai/files/ann/quic/tquic-linucb-1700000000123/file_stream"
    );
    assert_eq!(u.lines, vec![text("{}\n"), text("[]\n")]);
    assert_eq!((u.offset, u.complete, u.exitcode), (0, true, 0));
    assert_eq!(bearer("k"), "Bearer k");
    assert_eq!(graphql_url(), "https://api.wandb.ai/graphql");
    assert_eq!(viewer_query(), "{viewer{entity}}");
    assert!(create_query().starts_with("mutation UpsertBucket("));
    assert!(upload_succeeded(Some(200)) && upload_succeeded(Some(299)));
    assert!(!upload_succeeded(Some(300)) && !upload_succeeded(Some(199)) && !upload_succeeded(None));
}

// ── kernel counters ──────────────────────────────────────────────────────────

const SNMP: &str = "Ip: Forwarding DefaultTTL\nIp: 1 64\nUdp: InDatagrams NoPorts RcvbufErrors\nUdp: 123456 0 42\nUdpLite: InDatagrams\nUdpLite: 0\n";

#[test]
fn protocol_counters_are_found() {
    assert_eq!(parse_proc_net_snmp(SNMP, "Udp:", "RcvbufErrors"), Ok(42));
    assert_eq!(parse_proc_net_snmp(SNMP, "Ip:", "DefaultTTL"), Ok(64));
    assert_eq!(parse_proc_net_snmp(SNMP, "Udp:", "Nothing"), Err(SnmpError::NotFound));
    assert_eq!(parse_proc_net_snmp(SNMP, "Tcp:", "RcvbufErrors"), Err(SnmpError::NotFound));
    assert_eq!(parse_proc_net_snmp("Udp: A B\nUdp: 1", "Udp:", "B"), Err(SnmpError::MissingValue));
    assert_eq!(
        parse_proc_net_snmp("Udp: A B\nUdp: 1 -2", "Udp:", "B"),
        Err(SnmpError::InvalidNumber)
    );
    assert_eq!(
        parse_proc_net_snmp("Udp: A\nIp: x\nUdp: B\r\nUdp: 7\r\n", "Udp:", "B"),
        Ok(7)
    );
}

#[test]
fn snapshots_and_differences() {
    assert_eq!(read_sysfs_u64(" 17\n"), Some(17));
    assert_eq!(read_sysfs_u64("+3"), Some(3));
    assert_eq!(read_sysfs_u64("18446744073709551616"), None);
    assert_eq!(read_sysfs_u64(""), None);
    let texts = InterfaceTexts {
        rx_dropped: Some(text("5\n")),
        tx_dropped: Some(text("x")),
        rx_missed_errors: None,
    };
    let s = snapshot(Some(SNMP), Some(&texts));
    assert_eq!((s.udp_rcvbuf_drops, s.nic_rx_dropped), (42, 5));
    assert_eq!((s.qdisc_tx_dropped, s.nic_rx_missed), (0, 0));
    assert!(snapshot(None, None).all_zero());
    let older = KernelNetSnapshot { udp_rcvbuf_drops: 40, nic_rx_dropped: 9, ..s };
    let d = s.delta(&older);
    assert_eq!((d.udp_rcvbuf_drops, d.nic_rx_dropped), (2, 0));
    assert!(s.delta(&s).all_zero());
    assert!(!s.all_zero());
    assert!(KernelNetSnapshot::default().all_zero());
    assert_eq!(counter_path("eth0", "rx_dropped"), "/sys/class/net/eth0/statistics/rx_dropped");
}

#[test]
fn default_route_is_found() {
    let route = "Iface\tDestination\tGateway\nlo\t0000007F\t00000000\neth1\t00000000\t0101A8C0\neth2 00000000 01\n";
    assert_eq!(default_iface(route), Some(text("eth1")));
    assert_eq!(default_iface("eth0 00000000 01\n"), None);
    assert_eq!(default_iface(""), None);
}

#[test]
fn runs_at_different_times_have_different_names() {
    assert_eq!(run_name("egreedy", 0), "tquic-egreedy-0");
    assert_ne!(run_name("minrtt", 999), run_name("minrtt", 1000));
    assert_eq!(run_name("minrtt", u64::MAX), "tquic-minrtt-18446744073709551615");
}
