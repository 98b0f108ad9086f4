//! The command lines of the server and the client, and what a start reports.

use crate::models::{ClientStartRequest, ServerStartRequest};
use crate::numerals::{decimal, decimal_string, lower_from, lowered};
use crate::text::{chars_of, same_chars, same_text, slice_chars, string_of, texts};
use vstd::prelude::*;
use vstd::string::StringExecFns;

verus! {

// ───────────────────────────── argument lists ─────────────────────────────

/// A flag with a number, where there is one.
#[verifier::opaque]
pub open spec fn with_number(a: Seq<Seq<char>>, flag: Seq<char>, v: Option<u64>) -> Seq<Seq<char>> {
    match v {
        Some(n) => a.push(flag).push(decimal(n as nat)),
        None => a,
    }
}

/// A flag with a text, where there is one.
#[verifier::opaque]
pub open spec fn with_text(a: Seq<Seq<char>>, flag: Seq<char>, v: Option<String>) -> Seq<
    Seq<char>,
> {
    match v {
        Some(t) => a.push(flag).push(t@),
        None => a,
    }
}

/// A flag, where it is set.
#[verifier::opaque]
pub open spec fn with_flag(a: Seq<Seq<char>>, flag: Seq<char>, on: bool) -> Seq<Seq<char>> {
    if on {
        a.push(flag)
    } else {
        a
    }
}

/// A flag in front of each of the texts.
#[verifier::opaque]
pub open spec fn with_each(a: Seq<Seq<char>>, flag: Seq<char>, vs: Seq<Seq<char>>) -> Seq<Seq<char>>
    decreases vs.len(),
{
    if vs.len() == 0 {
        a
    } else {
        with_each(a, flag, vs.drop_last()).push(flag).push(vs.last())
    }
}

struct Args {
    items: Vec<String>,
}

impl Args {
    spec fn texts(self) -> Seq<Seq<char>> {
        texts(self.items@)
    }

    fn new() -> (r: Self)
        ensures
            r.texts() == Seq::<Seq<char>>::empty(),
    {
        let r = Args { items: Vec::new() };
        assert(r.texts() =~= Seq::<Seq<char>>::empty());
        r
    }

    fn word(&mut self, w: &str)
        ensures
            final(self).texts() == old(self).texts().push(w@),
    {
        self.items.push(String::from_str(w));
        assert(self.texts() =~= old(self).texts().push(w@));
    }

    fn number(&mut self, flag: &str, v: Option<u64>)
        ensures
            final(self).texts() == with_number(old(self).texts(), flag@, v),
    {
        proof {
            reveal(with_number);
        }
        if let Some(n) = v {
            self.word(flag);
            self.word(decimal_string(n).as_str());
        }
    }

    fn text(&mut self, flag: &str, v: &Option<String>)
        ensures
            final(self).texts() == with_text(old(self).texts(), flag@, *v),
    {
        proof {
            reveal(with_text);
        }
        if let Some(t) = v {
            self.word(flag);
            self.word(t.as_str());
        }
    }

    fn flag(&mut self, flag: &str, on: bool)
        ensures
            final(self).texts() == with_flag(old(self).texts(), flag@, on),
    {
        proof {
            reveal(with_flag);
        }
        if on {
            self.word(flag);
        }
    }

    fn each(&mut self, flag: &str, vs: &Vec<String>)
        ensures
            final(self).texts() == with_each(old(self).texts(), flag@, texts(vs@)),
    {
        proof {
            reveal_with_fuel(with_each, 2);
        }
        let ghost before = self.texts();
        let ghost all = texts(vs@);
        let mut i: usize = 0;
        assert(all.subrange(0, 0) =~= Seq::<Seq<char>>::empty());
        while i < vs.len()
            invariant
                i <= vs@.len() == all.len(),
                all == texts(vs@),
                self.texts() == with_each(before, flag@, all.subrange(0, i as int)),
            decreases vs@.len() - i,
        {
            proof {
                reveal_with_fuel(with_each, 2);
                assert(all.subrange(0, i + 1).drop_last() =~= all.subrange(0, i as int));
            }
            self.word(flag);
            self.word(vs[i].as_str());
            i += 1;
        }
        assert(all.subrange(0, i as int) =~= all);
    }

    fn all(&mut self, vs: &Vec<String>)
        ensures
            final(self).texts() == old(self).texts() + texts(vs@),
    {
        let ghost before = self.texts();
        let ghost all = texts(vs@);
        let mut i: usize = 0;
        assert(before + all.subrange(0, 0) =~= before);
        while i < vs.len()
            invariant
                i <= vs@.len() == all.len(),
                all == texts(vs@),
                self.texts() == before + all.subrange(0, i as int),
            decreases vs@.len() - i,
        {
            self.word(vs[i].as_str());
            i += 1;
            assert(self.texts() =~= before + all.subrange(0, i as int));
        }
        assert(all.subrange(0, i as int) =~= all);
    }
}

// ───────────────────────────── server ─────────────────────────────

/// The arguments of the server.
pub open spec fn server_command(r: ServerStartRequest) -> Seq<Seq<char>> {
    let a = seq![
        "-c"@,
        r.cert@,
        "-k"@,
        r.key@,
        "--listen"@,
        r.listen@,
        "--congestion-control-algor"@,
        r.congestion_control@,
        "--log-level"@,
        r.log_level@,
    ];
    let a = with_number(a, "--initial-congestion-window"@, r.initial_congestion_window);
    let a = with_number(a, "--min-congestion-window"@, r.min_congestion_window);
    let a = with_number(a, "--send-udp-payload-size"@, r.send_udp_payload_size);
    let a = with_number(a, "--recv-udp-payload-size"@, r.recv_udp_payload_size);
    let a = with_number(a, "--handshake-timeout"@, r.handshake_timeout);
    let a = with_number(a, "--idle-timeout"@, r.idle_timeout);
    let a = with_number(a, "--initial-rtt"@, r.initial_rtt);
    let a = with_number(a, "--pto-linear-factor"@, r.pto_linear_factor);
    let a = with_number(a, "--max-pto"@, r.max_pto);
    let a = with_number(a, "--anti-amplification-factor"@, r.anti_amplification_factor);
    let a = with_number(a, "--send-batch-size"@, r.send_batch_size);
    let a = with_number(a, "--zerortt-buffer-size"@, r.zerortt_buffer_size);
    let a = if r.enable_multipath {
        with_text(a.push("--enable-multipath"@), "--multipath-algor"@, r.multipath_algor)
    } else {
        a
    };
    let a = with_flag(a, "--enable-retry"@, r.enable_retry);
    let a = with_flag(a, "--disable-encryption"@, r.disable_encryption);
    let a = with_text(a, "--keylog-file"@, r.keylog_file);
    let a = with_text(a, "--log-file"@, r.log_file);
    let a = with_text(a, "--qlog-dir"@, r.qlog_dir);
    a + texts(r.extra_args@)
}

/// Makes the arguments of the server.
pub fn server_args(r: &ServerStartRequest) -> (v: Vec<String>)
    ensures
        texts(v@) == server_command(*r),
{
    let mut a = Args::new();
    a.word("-c");
    a.word(r.cert.as_str());
    a.word("-k");
    a.word(r.key.as_str());
    a.word("--listen");
    a.word(r.listen.as_str());
    a.word("--congestion-control-algor");
    a.word(r.congestion_control.as_str());
    a.word("--log-level");
    a.word(r.log_level.as_str());
    assert(a.texts() =~= seq![
        "-c"@,
        r.cert@,
        "-k"@,
        r.key@,
        "--listen"@,
        r.listen@,
        "--congestion-control-algor"@,
        r.congestion_control@,
        "--log-level"@,
        r.log_level@,
    ]);
    a.number("--initial-congestion-window", r.initial_congestion_window);
    a.number("--min-congestion-window", r.min_congestion_window);
    a.number("--send-udp-payload-size", r.send_udp_payload_size);
    a.number("--recv-udp-payload-size", r.recv_udp_payload_size);
    a.number("--handshake-timeout", r.handshake_timeout);
    a.number("--idle-timeout", r.idle_timeout);
    a.number("--initial-rtt", r.initial_rtt);
    a.number("--pto-linear-factor", r.pto_linear_factor);
    a.number("--max-pto", r.max_pto);
    a.number("--anti-amplification-factor", r.anti_amplification_factor);
    a.number("--send-batch-size", r.send_batch_size);
    a.number("--zerortt-buffer-size", r.zerortt_buffer_size);
    if r.enable_multipath {
        a.word("--enable-multipath");
        a.text("--multipath-algor", &r.multipath_algor);
    }
    a.flag("--enable-retry", r.enable_retry);
    a.flag("--disable-encryption", r.disable_encryption);
    a.text("--keylog-file", &r.keylog_file);
    a.text("--log-file", &r.log_file);
    a.text("--qlog-dir", &r.qlog_dir);
    a.all(&r.extra_args);
    a.items
}

// ───────────────────────────── client ─────────────────────────────

/// The handshake timeout of a client that is given none.
pub const DEFAULT_HANDSHAKE_TIMEOUT: u64 = 10000;

/// The handshake timeout of a client.
pub open spec fn client_timeout(r: ClientStartRequest) -> u64 {
    match r.handshake_timeout {
        Some(t) => t,
        None => DEFAULT_HANDSHAKE_TIMEOUT,
    }
}

/// The handshake timeout of a client.
pub fn effective_handshake_timeout(r: &ClientStartRequest) -> (t: u64)
    ensures
        t == client_timeout(*r),
{
    match r.handshake_timeout {
        Some(t) => t,
        None => DEFAULT_HANDSHAKE_TIMEOUT,
    }
}

/// The arguments of the client.
pub open spec fn client_command(r: ClientStartRequest) -> Seq<Seq<char>> {
    let a = seq![
        "--connect-to"@,
        r.connect_to@,
        "--congestion-control-algor"@,
        r.congestion_control@,
        "--log-level"@,
        r.log_level@,
        "--mode"@,
        r.mode@,
    ];
    let a = with_each(a, "--local-addresses"@, texts(r.local_addresses@));
    let a = with_number(a, "--duration"@, r.duration);
    let a = with_number(a, "--streams-per-conn"@, r.streams_per_conn);
    let a = with_text(a, "--bandwidth"@, r.bandwidth);
    let a = with_number(a, "--threads"@, r.threads);
    let a = with_number(a, "--max-concurrent-conns"@, r.max_concurrent_conns);
    let a = with_number(a, "--max-concurrent-requests"@, r.max_concurrent_requests);
    let a = with_number(a, "--initial-congestion-window"@, r.initial_congestion_window);
    let a = with_number(a, "--min-congestion-window"@, r.min_congestion_window);
    let a = with_number(a, "--send-udp-payload-size"@, r.send_udp_payload_size);
    let a = with_number(a, "--recv-udp-payload-size"@, r.recv_udp_payload_size);
    let a = with_number(a, "--handshake-timeout"@, Some(client_timeout(r)));
    let a = with_number(a, "--idle-timeout"@, r.idle_timeout);
    let a = with_number(a, "--initial-rtt"@, r.initial_rtt);
    let a = with_number(a, "--pto-linear-factor"@, r.pto_linear_factor);
    let a = with_number(a, "--max-pto"@, r.max_pto);
    let a = with_number(a, "--send-batch-size"@, r.send_batch_size);
    let a = if r.enable_multipath {
        with_text(
            with_text(a.push("--enable-multipath"@), "--multipath-algor"@, r.multipath_algor),
            "--linucb-alpha"@,
            r.linucb_alpha,
        )
    } else {
        a
    };
    let a = with_flag(a, "--disable-encryption"@, r.disable_encryption);
    let a = with_text(a, "--keylog-file"@, r.keylog_file);
    let a = with_text(a, "--log-file"@, r.log_file);
    let a = with_text(a, "--qlog-dir"@, r.qlog_dir);
    a + texts(r.extra_args@)
}

/// Makes the arguments of the client.
pub fn client_args(r: &ClientStartRequest) -> (v: Vec<String>)
    ensures
        texts(v@) == client_command(*r),
{
    let mut a = Args::new();
    a.word("--connect-to");
    a.word(r.connect_to.as_str());
    a.word("--congestion-control-algor");
    a.word(r.congestion_control.as_str());
    a.word("--log-level");
    a.word(r.log_level.as_str());
    a.word("--mode");
    a.word(r.mode.as_str());
    assert(a.texts() =~= seq![
        "--connect-to"@,
        r.connect_to@,
        "--congestion-control-algor"@,
        r.congestion_control@,
        "--log-level"@,
        r.log_level@,
        "--mode"@,
        r.mode@,
    ]);
    a.each("--local-addresses", &r.local_addresses);
    a.number("--duration", r.duration);
    a.number("--streams-per-conn", r.streams_per_conn);
    a.text("--bandwidth", &r.bandwidth);
    a.number("--threads", r.threads);
    a.number("--max-concurrent-conns", r.max_concurrent_conns);
    a.number("--max-concurrent-requests", r.max_concurrent_requests);
    a.number("--initial-congestion-window", r.initial_congestion_window);
    a.number("--min-congestion-window", r.min_congestion_window);
    a.number("--send-udp-payload-size", r.send_udp_payload_size);
    a.number("--recv-udp-payload-size", r.recv_udp_payload_size);
    a.number("--handshake-timeout", Some(effective_handshake_timeout(r)));
    a.number("--idle-timeout", r.idle_timeout);
    a.number("--initial-rtt", r.initial_rtt);
    a.number("--pto-linear-factor", r.pto_linear_factor);
    a.number("--max-pto", r.max_pto);
    a.number("--send-batch-size", r.send_batch_size);
    if r.enable_multipath {
        a.word("--enable-multipath");
        a.text("--multipath-algor", &r.multipath_algor);
        a.text("--linucb-alpha", &r.linucb_alpha);
    }
    a.flag("--disable-encryption", r.disable_encryption);
    a.text("--keylog-file", &r.keylog_file);
    a.text("--log-file", &r.log_file);
    a.text("--qlog-dir", &r.qlog_dir);
    a.all(&r.extra_args);
    a.items
}

/// Whether the texts are equal, up to the case of ASCII letters.
fn same_ignoring_case(a: &str, lit: &str) -> (r: bool)
    ensures
        r == (lowered(a@) == lowered(lit@)),
{
    let va = chars_of(a);
    let vb = chars_of(lit);
    assert(va@.subrange(0, va@.len() as int) =~= va@);
    assert(vb@.subrange(0, vb@.len() as int) =~= vb@);
    same_chars(&lower_from(&va, 0), &lower_from(&vb, 0))
}

/// The client asks for round robin where it has no effect: in a downlink
/// transfer the server sends, so the server's scheduler decides.
pub open spec fn rr_without_effect(r: ClientStartRequest) -> bool {
    &&& r.enable_multipath
    &&& lowered(r.mode@) == lowered("downlink"@)
    &&& r.multipath_algor matches Some(a) && lowered(a@) == lowered("roundrobin"@)
}

/// A client is warned exactly where it asks for round robin, in any spelling of small and
/// capital letters, on a multipath downlink transfer; an uplink transfer, a transfer
/// on one path and any other scheduler are not warned about.
pub proof fn warned_about_round_robin_downlinks(r: ClientStartRequest)
    ensures
        rr_without_effect(r) ==> r.enable_multipath && r.multipath_algor is Some,
        r.enable_multipath && lowered(r.mode@) == "downlink"@ && (r.multipath_algor matches Some(a)
            && lowered(a@) == "roundrobin"@) <==> rr_without_effect(r),
        lowered(r.mode@) == "uplink"@ ==> !rr_without_effect(r),
{
    reveal_strlit("downlink");
    reveal_strlit("uplink");
    reveal_strlit("roundrobin");
    assert(lowered("downlink"@) =~= "downlink"@);
    assert(lowered("roundrobin"@) =~= "roundrobin"@);
    assert("downlink"@[0] == 'd' && "uplink"@[0] == 'u');
}

/// The warning about a round-robin setting without effect.
pub open spec fn rr_warning() -> Seq<char> {
    "downlink uses server-side scheduler; configure /server/start with enable_multipath=true and multipath_algor=RoundRobin"@
}

/// The warning about a round-robin setting without effect, where there is one.
pub fn rr_downlink_warning(r: &ClientStartRequest) -> (w: Option<String>)
    ensures
        match w {
            Some(t) => rr_without_effect(*r) && t@ == rr_warning(),
            None => !rr_without_effect(*r),
        },
{
    if !r.enable_multipath || !same_ignoring_case(r.mode.as_str(), "downlink") {
        return None;
    }
    match &r.multipath_algor {
        Some(a) => if same_ignoring_case(a.as_str(), "roundrobin") {
            Some(
                String::from_str(
                    "downlink uses server-side scheduler; configure /server/start with enable_multipath=true and multipath_algor=RoundRobin",
                ),
            )
        } else {
            None
        },
        None => None,
    }
}

/// Whether the transfer is an uplink transfer.
pub fn is_uplink(r: &ClientStartRequest) -> (b: bool)
    ensures
        b == (r.mode@ == "uplink"@),
{
    same_text(r.mode.as_str(), "uplink")
}

/// The host is what stands before the last colon.
pub open spec fn is_host(s: Seq<char>, k: int) -> bool {
    0 <= k < s.len() && s[k] == ':' && forall|j: int| k < j < s.len() ==> s[j] != ':'
}

/// Derives the address of the server's control interface from `host:port`: the
/// same host, with the port 8000. `None` where there is no colon.
pub fn derived_server_api_url(connect_to: &str) -> (r: Option<String>)
    ensures
        match r {
            Some(u) => exists|k: int| #[trigger]
                is_host(connect_to@, k) && u@ == "http://"@ + connect_to@.subrange(0, k)
                    + ":8000"@,
            None => !connect_to@.contains(':'),
        },
{
    let v = chars_of(connect_to);
    let mut k: usize = v.len();
    while k > 0
        invariant
            k <= v@.len(),
            v@ == connect_to@,
            forall|j: int| k <= j < v@.len() ==> v@[j] != ':',
        decreases k,
    {
        k -= 1;
        if v[k] == ':' {
            let host = string_of(&slice_chars(&v, 0, k));
            let mut u = String::from_str("http://");
            u.append(host.as_str());
            u.append(":8000");
            assert(is_host(connect_to@, k as int));
            return Some(u);
        }
    }
    None
}

// ───────────────────────────── starting ─────────────────────────────

/// How long a start waits for the previous client to end, in milliseconds.
pub const START_WAIT_MS: u64 = 20000;

/// How long a start waits between two looks, in milliseconds.
pub const START_POLL_MS: u64 = 200;

/// How long a start waits so that the server can settle, in milliseconds.
pub const STARTUP_COOLDOWN_MS: u64 = 750;

/// What a start does about the previous client.
#[derive(Debug, Clone, Copy, PartialEq, Eq, Structural)]
pub enum StartGate {
    /// It has ended: go on.
    Proceed,
    /// Look again after this many milliseconds.
    Wait { ms: u64 },
    /// It did not end in time.
    Refuse,
}

/// The decision about a start, `waited_ms` milliseconds after it was asked for.
pub open spec fn start_gate(running: bool, waited_ms: u64) -> StartGate {
    if !running {
        StartGate::Proceed
    } else if waited_ms < START_WAIT_MS {
        StartGate::Wait { ms: START_POLL_MS }
    } else {
        StartGate::Refuse
    }
}

/// A start goes on exactly where no client runs; otherwise it looks again every 200
/// milliseconds and is refused after 20 seconds.
pub proof fn start_waits_for_the_previous_client(running: bool, waited_ms: u64)
    ensures
        start_gate(running, waited_ms) is Proceed <==> !running,
        start_gate(running, waited_ms) is Refuse <==> running && waited_ms >= 20_000,
        start_gate(running, waited_ms) == (StartGate::Wait { ms: 200 }) <==> running && waited_ms
            < 20_000,
{
}

/// Decides about a start, `waited_ms` milliseconds after it was asked for.
pub fn client_start_gate(running: bool, waited_ms: u64) -> (g: StartGate)
    ensures
        g == start_gate(running, waited_ms),
{
    if !running {
        StartGate::Proceed
    } else if waited_ms < START_WAIT_MS {
        StartGate::Wait { ms: START_POLL_MS }
    } else {
        StartGate::Refuse
    }
}

} // verus!
