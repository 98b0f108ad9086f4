//! Reading interval rows, and the rows that the server prints.

use tquic_bench::intervals::{parse_interval_line, IntervalSample};
use tquic_bench::report::{
    render_downlink_row, render_header, render_summary_row, render_uplink_row, reset_session,
    session_begun, Interval, IntervalReporter, RowCells,
};
use tquic_bench::server::LiveCounters;

fn double(text: &Option<String>) -> f64 {
    match text {
        Some(t) => t.parse().unwrap(),
        None => 0.0,
    }
}

fn fields(v: &IntervalSample) -> (f64, f64, f64) {
    (v.throughput.parse().unwrap(), double(&v.jitter), double(&v.packet_loss))
}

#[test]
fn parse_receiver_row() {
    let line = "  0.00-1.00 s    59.60 MB  500.00 Mbits/sec       0.009 ms  0/52106 (0%)";
    let v = parse_interval_line(line).expect("should parse");
    let (tp, jitter, loss) = fields(&v);
    assert!((tp - 500.0).abs() < 1e-6);
    assert!((jitter - 0.009).abs() < 1e-9);
    assert_eq!(loss, 0.0);
}

#[test]
fn parse_receiver_row_with_loss() {
    let line = "  1.00-2.00 s   100.48 MB  803.84 Mbits/sec       0.038 ms  4266/68274 (6%)";
    let v = parse_interval_line(line).expect("should parse");
    let (tp, jitter, loss) = fields(&v);
    assert!((tp - 803.84).abs() < 1e-4);
    assert!((jitter - 0.038).abs() < 1e-9);
    assert_eq!(loss, 6.0);
}

#[test]
fn parse_sender_row() {
    let line = "  0.00-1.00 s   113.62 MB  908.94 Mbits/sec  77252";
    let v = parse_interval_line(line).expect("should parse");
    let (tp, jitter, loss) = fields(&v);
    assert!((tp - 908.94).abs() < 1e-4);
    assert_eq!(jitter, 0.0);
    assert_eq!(loss, 0.0);
}

#[test]
fn parse_sender_row_with_path_breakdown() {
    let line = "  1.00-2.00 s    4.38 MB  35.04 Mbits/sec  54/3129 (1.73%)  #path5G=7.86Mbps,pathSat=28.81Mbps";
    let v = parse_interval_line(line).expect("should parse");
    let (tp, jitter, loss) = fields(&v);
    assert!((tp - 35.04).abs() < 1e-4);
    assert_eq!(jitter, 0.0);
    assert!((loss - 1.73).abs() < 1e-9);
    assert_eq!(v.path5g.as_ref().map(|t| t.parse::<f64>().unwrap()), Some(7.86));
    assert_eq!(v.pathsat.as_ref().map(|t| t.parse::<f64>().unwrap()), Some(28.81));
}

#[test]
fn skip_summary_sender() {
    let line = "  0.00-10.00 s  1022.13 MB  817.70 Mbits/sec       0.000 ms  2765/694460 (0%)  sender";
    assert!(parse_interval_line(line).is_none());
}

#[test]
fn skip_summary_receiver() {
    let line = "  0.00-41.00 s   993.91 MB  193.93 Mbits/sec       0.184 ms  48003/675353 (7%)  receiver";
    assert!(parse_interval_line(line).is_none());
}

#[test]
fn skip_summary_with_suffix() {
    let line = "  0.00-20.00 s    76.82 MB   30.73 Mbits/sec                 35/53157 (0.0658%)  sender (QUIC retransmitted)";
    assert!(parse_interval_line(line).is_none());

    let line = "  0.00-20.00 s    76.82 MB   30.73 Mbits/sec       0.169 ms  1/53157 (0.0019%)  receiver (permanently lost)";
    assert!(parse_interval_line(line).is_none());
}

#[test]
fn skip_separator_line() {
    assert!(parse_interval_line("- - - - - - - - - - - - - - -").is_none());
}

#[test]
fn skip_header_line() {
    let line = "  Interval        Transfer           Bitrate      Jitter  Lost/Total Datagrams";
    assert!(parse_interval_line(line).is_none());
}

#[test]
fn skip_too_short() {
    assert!(parse_interval_line("0.00-1.00 s 1.0").is_none());
}

#[test]
fn skip_empty_line() {
    assert!(parse_interval_line("").is_none());
}

#[test]
fn interval_end_is_read() {
    let v = parse_interval_line("  1.00-2.00 s   1.00 MB  8.00 Mbits/sec  10").unwrap();
    assert_eq!(v.interval_end, Some("2.00".to_string()));
    let v = parse_interval_line("  1.00-x s   1.00 MB  8.00 Mbits/sec  10").unwrap();
    assert_eq!(v.interval_end, None);
}

#[test]
fn bad_numbers_are_told_apart() {
    assert!(parse_interval_line("0.0-1.0 s 1 MB fast Mbits/sec 10").is_none());
    assert!(parse_interval_line("0.0-1.0 s 1 MB 8 Mbits/sec x ms 0/1 (0%)").is_none());
    let v = parse_interval_line("0.0-1.0 s 1 MB 8 Mbits/sec 0/1 (?%)").unwrap();
    assert_eq!(v.packet_loss, None);
    let v = parse_interval_line("0.0-1.0 s 1 MB inf Mbits/sec 1e3 ms 0/1 (.5%)").unwrap();
    assert_eq!(v.throughput, "inf");
    assert_eq!(v.jitter, Some("1e3".to_string()));
    assert_eq!(v.packet_loss, Some(".5".to_string()));
}

fn cells() -> RowCells {
    RowCells {
        start: "0.00".to_string(),
        end: "1.00".to_string(),
        mb: "59.60".to_string(),
        mbps: "500.00".to_string(),
        jitter: "0.009".to_string(),
        loss: "1.50".to_string(),
    }
}

fn interval() -> Interval {
    Interval { start: 0, bytes: 59_600_000, lost: 3, sent: 200, done: false }
}

#[test]
fn printed_uplink_row_reads_back() {
    let line = render_uplink_row(&cells(), &interval());
    assert_eq!(
        line,
        format!(
            "  {:<12}  {:>10}  {:>16}  {:>13}  {}/{} ({}%)",
            "0.00-1.00 s", "59.60 MB", "500.00 Mbits/sec", "0.009 ms", 3, 200, "1.50"
        )
    );
    let v = parse_interval_line(&line).unwrap();
    assert_eq!(v.throughput, "500.00");
    assert_eq!(v.jitter, Some("0.009".to_string()));
    assert_eq!(v.packet_loss, Some("1.50".to_string()));
    assert_eq!(v.interval_end, Some("1.00".to_string()));
}

#[test]
fn printed_downlink_row_reads_back() {
    let line = render_downlink_row(&cells(), &interval());
    assert_eq!(
        line,
        format!(
            "  {:<12}  {:>10}  {:>16}  {}",
            "0.00-1.00 s", "59.60 MB", "500.00 Mbits/sec", 200
        )
    );
    let v = parse_interval_line(&line).unwrap();
    assert_eq!(v.throughput, "500.00");
    assert_eq!(v.jitter, None);
}

#[test]
fn printed_summaries_and_headers_are_skipped() {
    let live = LiveCounters { bytes: 10, lost: 1, sent: 2, is_uplink: true, ..LiveCounters::new() };
    let mut r = IntervalReporter::new(&live);
    r.tick(&live);
    let up = r.total(&live).unwrap();
    let line = render_summary_row(&cells(), &up);
    assert!(line.ends_with("1/2 (1.50%)  receiver"));
    assert!(parse_interval_line(&line).is_none());
    let down = r.total(&LiveCounters { is_uplink: false, ..live }).unwrap();
    let line = render_summary_row(&cells(), &down);
    assert_eq!(
        line,
        format!(
            "  {:<12}  {:>10}  {:>16}  {:>13}  {}/{} ({}%)  {}",
            "0.00-1.00 s", "59.60 MB", "500.00 Mbits/sec", "", 1, 2, "1.50", "sender"
        )
    );
    assert!(parse_interval_line(&line).is_none());
    assert_eq!(
        render_header(true),
        format!(
            "  {:<12}  {:>10}  {:>16}  {:>10}  {}",
            "Interval", "Transfer", "Bitrate", "Jitter", "Lost/Total Datagrams"
        )
    );
    assert_eq!(
        render_header(false),
        format!("  {:<12}  {:>10}  {:>16}  {}", "Interval", "Transfer", "Bitrate", "Total Datagrams")
    );
    assert!(parse_interval_line(&render_header(true)).is_none());
    assert!(parse_interval_line(&render_header(false)).is_none());
}

#[test]
fn intervals_report_differences() {
    let mut live = LiveCounters::new();
    assert!(!session_begun(&live));
    live.bytes = 1000;
    live.sent = 10;
    assert!(session_begun(&live));
    let mut r = IntervalReporter::new(&live);
    let first = r.tick(&live);
    assert_eq!((first.start, first.bytes, first.sent, first.lost), (0, 1000, 10, 0));
    live.bytes = 1700;
    live.sent = 4;
    live.lost = 2;
    live.done = true;
    let second = r.tick(&live);
    assert_eq!((second.start, second.bytes, second.sent, second.lost), (1, 700, 0, 2));
    assert!(second.done);
    assert_eq!(first.bytes + second.bytes, live.bytes);
    let total = r.total(&live).unwrap();
    assert_eq!(total.duration_ns, 2_000_000_000);
    live.duration_ns = 1_500_000_000;
    assert_eq!(r.total(&live).unwrap().duration_ns, 1_500_000_000);
    reset_session(&mut live);
    assert!(!session_begun(&live));
    assert!(r.total(&live).is_none());
}
