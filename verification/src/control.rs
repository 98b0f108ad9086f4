//! The control plane: starting, stopping and watching the benchmark server and
//! client, and keeping the samples of their latest sessions.

use crate::commands::{
    client_args, client_command, client_start_gate, client_timeout, derived_server_api_url,
    effective_handshake_timeout, is_host, is_uplink, rr_downlink_warning, rr_warning, rr_without_effect,
    server_args, server_command, StartGate, STARTUP_COOLDOWN_MS, START_POLL_MS, START_WAIT_MS,
};
use crate::models::{ClientStartRequest, OverallStatus, ServerStartRequest};
use crate::results::{
    all_wf, line_object, line_sample, models, RowDoubles, Sample, SampleModel,
};
use crate::state::{latest, polled, reported_state, ChildPoll, ProcessModel, ProcessState};
use crate::text::{opt_text, texts};
use vstd::prelude::*;
use vstd::string::StringExecFns;

verus! {

/// Which process.
#[derive(Debug, Clone, Copy, PartialEq, Eq, Structural)]
pub enum Side {
    Server,
    Client,
}

/// The state of the control plane.
pub struct AppState {
    pub server: ProcessState,
    pub client: ProcessState,
    /// The samples of the latest client session.
    pub last_client: Vec<Sample>,
    /// The samples of the latest server session.
    pub last_server: Vec<Sample>,
    /// The latest client session was an uplink session.
    pub last_mode_uplink: bool,
    /// The server's control interface.
    pub server_api_url: Option<String>,
}

/// [`AppState`], as the contracts speak of it.
#[verifier::ext_equal]
pub struct AppModel {
    pub server: ProcessModel,
    pub client: ProcessModel,
    pub last_client: Seq<SampleModel>,
    pub last_server: Seq<SampleModel>,
    pub last_mode_uplink: bool,
    pub server_api_url: Option<Seq<char>>,
}

impl View for AppState {
    type V = AppModel;

    open spec fn view(&self) -> AppModel {
        AppModel {
            server: self.server@,
            client: self.client@,
            last_client: models(self.last_client@),
            last_server: models(self.last_server@),
            last_mode_uplink: self.last_mode_uplink,
            server_api_url: opt_text(self.server_api_url),
        }
    }
}

/// What a start of the server leads to.
pub enum ServerStart {
    /// It runs already.
    AlreadyRunning { pid: Option<u32> },
    /// Run the server with these arguments.
    Spawn { args: Vec<String> },
}

/// What a start of the client leads to.
pub enum ClientStart {
    /// Ask again after this many milliseconds.
    Wait { ms: u64 },
    /// The previous client still runs.
    StillRunning { pid: Option<u32> },
    /// Run the client after this many milliseconds.
    Cooldown { ms: u64 },
}

/// How the client is run.
pub struct ClientSpawn {
    pub args: Vec<String>,
    /// Post to this address, so that the server forgets its samples.
    pub clear_url: Option<String>,
    pub handshake_timeout: u64,
    pub warning: Option<String>,
}

/// A process without output, once it was looked at.
pub open spec fn cleared(m: ProcessModel, poll: ChildPoll) -> ProcessModel {
    ProcessModel { output: Seq::empty(), ..polled(m, poll) }
}

/// The address of the server's control interface for a `host:port`.
pub open spec fn is_api_url(connect_to: Seq<char>, url: Option<Seq<char>>) -> bool {
    match url {
        Some(u) => exists|k: int| #[trigger]
            is_host(connect_to, k) && u == "http://"@ + connect_to.subrange(0, k) + ":8000"@,
        None => !connect_to.contains(':'),
    }
}

/// The process runs, as a look at it shows.
pub open spec fn is_alive(m: ProcessModel, poll: ChildPoll) -> bool {
    m.has_child && poll == ChildPoll::Alive
}

/// The state at the begin of a server session.
pub open spec fn server_session_begun(m: AppModel, poll: ChildPoll) -> AppModel {
    AppModel { server: cleared(m.server, poll), last_server: Seq::empty(), ..m }
}

/// The state once the samples of the server were forgotten.
pub open spec fn server_forgotten(m: AppModel) -> AppModel {
    AppModel { last_server: Seq::empty(), ..m }
}

/// The state after a look at both processes.
pub open spec fn both_polled(m: AppModel, server: ChildPoll, client: ChildPoll) -> AppModel {
    AppModel { server: polled(m.server, server), client: polled(m.client, client), ..m }
}

/// Looking at both processes concerns each by its own look, and forgetting the samples
/// of the server keeps everything else; neither touches the client's samples.
pub proof fn looks_and_forgetting_keep_the_rest(
    m: AppModel,
    server: ChildPoll,
    client: ChildPoll,
)
    ensures
        ({
            let n = both_polled(m, server, client);
            &&& m.server.has_child && server is Exited ==> !n.server.has_child
            &&& !(server is Exited) ==> n.server == m.server
            &&& m.client.has_child && client is Exited ==> !n.client.has_child
            &&& !(client is Exited) ==> n.client == m.client
            &&& n.server.output == m.server.output && n.client.output == m.client.output
            &&& n.last_client == m.last_client && n.last_server == m.last_server
        }),
        ({
            let n = server_forgotten(m);
            &&& n.last_server.len() == 0
            &&& n.server == m.server && n.client == m.client && n.last_client == m.last_client
            &&& n.last_mode_uplink == m.last_mode_uplink && n.server_api_url == m.server_api_url
        }),
{
}

/// The state at the begin of a client session.
pub open spec fn client_session_begun(m: AppModel, mode: Seq<char>, url: Option<Seq<char>>)
    -> AppModel {
    AppModel {
        client: ProcessModel { output: Seq::empty(), ..m.client },
        last_client: Seq::empty(),
        last_server: Seq::empty(),
        last_mode_uplink: mode == "uplink"@,
        server_api_url: url,
        ..m
    }
}

/// The decision about a start of the client.
pub open spec fn client_decision(m: AppModel, poll: ChildPoll, waited_ms: u64) -> ClientStart {
    if !is_alive(m.client, poll) {
        ClientStart::Cooldown { ms: STARTUP_COOLDOWN_MS }
    } else if waited_ms < START_WAIT_MS {
        ClientStart::Wait { ms: START_POLL_MS }
    } else {
        ClientStart::StillRunning { pid: m.client.pid }
    }
}

/// A start of the client goes on, after 750 milliseconds, exactly where no client runs;
/// while one does, it asks again every 200 milliseconds, and after 20 seconds it is
/// refused with the id of the one that runs.
pub proof fn client_start_waits_its_turn(m: AppModel, poll: ChildPoll, waited_ms: u64)
    ensures
        ({
            let r = client_decision(m, poll, waited_ms);
            let runs = m.client.has_child && poll is Alive;
            &&& !runs ==> r == (ClientStart::Cooldown { ms: 750 })
            &&& runs && waited_ms < 20_000 ==> r == (ClientStart::Wait { ms: 200 })
            &&& runs && waited_ms >= 20_000 ==> r == (ClientStart::StillRunning {
                pid: m.client.pid,
            })
            &&& runs ==> polled(m.client, poll) == m.client
        }),
{
}

/// A session begins with no samples and no output of its process, and keeps what the
/// other process wrote; a client session forgets the samples of both sides, and is an
/// uplink session exactly where its mode says so.
pub proof fn sessions_begin_empty(
    m: AppModel,
    poll: ChildPoll,
    mode: Seq<char>,
    url: Option<Seq<char>>,
)
    ensures
        ({
            let n = server_session_begun(m, poll);
            &&& n.server.output.len() == 0 && n.last_server.len() == 0
            &&& poll is Exited ==> !n.server.has_child && (m.server.has_child ==> n.server.pid is None)
            &&& !(poll is Exited) ==> n.server.has_child == m.server.has_child && n.server.pid
                == m.server.pid
            &&& n.client == m.client && n.last_client == m.last_client
            &&& n.last_mode_uplink == m.last_mode_uplink && n.server_api_url == m.server_api_url
        }),
        ({
            let n = client_session_begun(m, mode, url);
            &&& n.client.output.len() == 0 && n.last_client.len() == 0 && n.last_server.len() == 0
            &&& n.client.has_child == m.client.has_child && n.client.pid == m.client.pid
            &&& n.server == m.server
            &&& n.last_mode_uplink <==> mode == "uplink"@
            &&& n.server_api_url == url
        }),
{
}

/// The control interface of a server is asked at the host that the client connects to,
/// at port 8000, whatever the port of the transfer is.
pub proof fn control_interface_is_at_the_same_host(
    host: Seq<char>,
    port: Seq<char>,
    url: Option<Seq<char>>,
)
    requires
        !port.contains(':'),
        is_api_url(host + seq![':'] + port, url),
    ensures
        url == Some("http://"@ + host + ":8000"@),
{
    let s = host + seq![':'] + port;
    let n = host.len() as int;
    assert(s[n] == ':');
    assert(s.contains(':'));
    let k = choose|k: int| #[trigger]
        is_host(s, k) && url.unwrap() == "http://"@ + s.subrange(0, k) + ":8000"@;
    if k < n {
        assert(s[n] != ':');
    } else if k > n {
        assert(s[k] == port[k - n - 1]);
        assert(port.contains(':'));
    }
    assert(s.subrange(0, n) =~= host);
}

/// Where a process writes a line.
#[derive(Debug, Clone, Copy, PartialEq, Eq, Structural)]
pub enum OutputStream {
    Stdout,
    Stderr,
}

/// A line of output, and the doubles that its columns denote where it is an
/// interval row.
pub struct CapturedLine {
    pub side: Side,
    pub stream: OutputStream,
    pub line: Seq<char>,
    pub doubles: RowDoubles,
}

/// The samples that a line adds to those of its process: the one of an interval
/// row on the standard output.
pub open spec fn line_samples(c: CapturedLine) -> Seq<SampleModel> {
    match (c.stream, line_object(c.line, c.doubles)) {
        (OutputStream::Stdout, Some(s)) => seq![s],
        _ => Seq::empty(),
    }
}

/// The state after a line of output.
pub open spec fn captured(m: AppModel, c: CapturedLine) -> AppModel {
    match c.side {
        Side::Server => AppModel {
            server: ProcessModel { output: latest(m.server.output.push(c.line)), ..m.server },
            last_server: m.last_server + line_samples(c),
            ..m
        },
        Side::Client => AppModel {
            client: ProcessModel { output: latest(m.client.output.push(c.line)), ..m.client },
            last_client: m.last_client + line_samples(c),
            ..m
        },
    }
}

/// The state after the lines, in order.
pub open spec fn captured_all(m: AppModel, lines: Seq<CapturedLine>) -> AppModel
    decreases lines.len(),
{
    if lines.len() == 0 {
        m
    } else {
        captured(captured_all(m, lines.drop_last()), lines.last())
    }
}

/// The samples of the interval rows that one process wrote to its standard output,
/// in order.
pub open spec fn rows_of(lines: Seq<CapturedLine>, side: Side) -> Seq<SampleModel>
    decreases lines.len(),
{
    if lines.len() == 0 {
        Seq::empty()
    } else if lines.last().side == side {
        rows_of(lines.drop_last(), side) + line_samples(lines.last())
    } else {
        rows_of(lines.drop_last(), side)
    }
}

/// A line is kept with the output of its own process and changes nothing of the other;
/// only a line of the standard output that is an interval row adds a sample.
pub proof fn line_goes_to_its_process(m: AppModel, c: CapturedLine)
    ensures
        ({
            let n = captured(m, c);
            let (own, kept) = if c.side is Server {
                (n.server, m.server)
            } else {
                (n.client, m.client)
            };
            let (samples, before) = if c.side is Server {
                (n.last_server, m.last_server)
            } else {
                (n.last_client, m.last_client)
            };
            &&& own.output.len() > 0 && own.output.last() == c.line
            &&& own.has_child == kept.has_child && own.pid == kept.pid
            &&& c.stream is Stdout && line_object(c.line, c.doubles) is Some ==> samples
                == before.push(line_object(c.line, c.doubles).unwrap())
            &&& c.stream is Stderr || line_object(c.line, c.doubles) is None ==> samples == before
            &&& c.side is Server ==> n.client == m.client && n.last_client == m.last_client
            &&& c.side is Client ==> n.server == m.server && n.last_server == m.last_server
            &&& n.last_mode_uplink == m.last_mode_uplink && n.server_api_url == m.server_api_url
        }),
{
    let (n, before) = if c.side is Server {
        (captured(m, c).last_server, m.last_server)
    } else {
        (captured(m, c).last_client, m.last_client)
    };
    if c.stream is Stdout && line_object(c.line, c.doubles) is Some {
        assert(n =~= before.push(line_object(c.line, c.doubles).unwrap()));
    } else {
        assert(n =~= before);
    }
}

/// The samples of a session are exactly the interval rows of its process's output:
/// capturing lines adds the rows among them, in order, and nothing else.
pub proof fn samples_are_parsed_rows(m: AppModel, lines: Seq<CapturedLine>)
    ensures
        captured_all(m, lines).last_server == m.last_server + rows_of(lines, Side::Server),
        captured_all(m, lines).last_client == m.last_client + rows_of(lines, Side::Client),
    decreases lines.len(),
{
    if lines.len() > 0 {
        samples_are_parsed_rows(m, lines.drop_last());
    }
    assert(captured_all(m, lines).last_server =~= m.last_server + rows_of(lines, Side::Server));
    assert(captured_all(m, lines).last_client =~= m.last_client + rows_of(lines, Side::Client));
}

impl AppState {
    /// The outputs and the samples are well-formed.
    pub open spec fn wf(self) -> bool {
        &&& self.server.wf()
        &&& self.client.wf()
        &&& all_wf(self.last_client@)
        &&& all_wf(self.last_server@)
    }

    /// No processes and no samples.
    pub fn new() -> (r: Self)
        ensures
            r.wf(),
            r@ == (AppModel {
                server: ProcessModel { has_child: false, pid: None, output: Seq::empty() },
                client: ProcessModel { has_child: false, pid: None, output: Seq::empty() },
                last_client: Seq::empty(),
                last_server: Seq::empty(),
                last_mode_uplink: false,
                server_api_url: None,
            }),
    {
        let r = AppState {
            server: ProcessState::new(),
            client: ProcessState::new(),
            last_client: Vec::new(),
            last_server: Vec::new(),
            last_mode_uplink: false,
            server_api_url: None,
        };
        assert(r@.last_client =~= Seq::<SampleModel>::empty());
        assert(r@.last_server =~= Seq::<SampleModel>::empty());
        r
    }

    /// Decides about a start of the server, given a look at its process.
    pub fn server_start(&mut self, req: &ServerStartRequest, poll: ChildPoll) -> (r: ServerStart)
        requires
            old(self).wf(),
        ensures
            final(self).wf(),
            if is_alive(old(self)@.server, poll) {
                &&& r matches ServerStart::AlreadyRunning { pid } && pid == old(self).server.pid
                &&& final(self)@ == old(self)@
            } else {
                &&& r matches ServerStart::Spawn { args } && texts(args@) == server_command(*req)
                &&& final(self)@ == server_session_begun(old(self)@, poll)
            },
    {
        let ghost m = self@;
        if self.server.is_running(poll) {
            assert(self@ =~= m);
            return ServerStart::AlreadyRunning { pid: self.server.pid };
        }
        self.server.clear_output();
        self.last_server.clear();
        assert(self@.last_server =~= Seq::<SampleModel>::empty());
        ServerStart::Spawn { args: server_args(req) }
    }

    /// Decides about a start of the client, given a look at its process,
    /// `waited_ms` milliseconds after it was asked for.
    pub fn client_start(&mut self, poll: ChildPoll, waited_ms: u64) -> (r: ClientStart)
        requires
            old(self).wf(),
        ensures
            final(self).wf(),
            r == client_decision(old(self)@, poll, waited_ms),
            final(self)@ == (AppModel { client: polled(old(self)@.client, poll), ..old(self)@ }),
    {
        let running = self.client.is_running(poll);
        match client_start_gate(running, waited_ms) {
            StartGate::Wait { ms } => ClientStart::Wait { ms },
            StartGate::Refuse => ClientStart::StillRunning { pid: self.client.pid },
            StartGate::Proceed => ClientStart::Cooldown { ms: STARTUP_COOLDOWN_MS },
        }
    }

    /// Begins a client session: says how the client is run, and forgets the
    /// output and the samples of the session before.
    pub fn client_spawn(&mut self, req: &ClientStartRequest) -> (r: ClientSpawn)
        requires
            old(self).wf(),
        ensures
            final(self).wf(),
            is_api_url(req.connect_to@, final(self)@.server_api_url),
            final(self)@ == client_session_begun(
                old(self)@,
                req.mode@,
                final(self)@.server_api_url,
            ),
            texts(r.args@) == client_command(*req),
            opt_text(r.clear_url) == match final(self)@.server_api_url {
                Some(u) => Some(u + "/server/clear"@),
                None => None,
            },
            r.handshake_timeout == client_timeout(*req),
            opt_text(r.warning) == if rr_without_effect(*req) {
                Some(rr_warning())
            } else {
                None
            },
    {
        self.client.clear_output();
        self.last_client.clear();
        self.last_server.clear();
        self.server_api_url = derived_server_api_url(req.connect_to.as_str());
        self.last_mode_uplink = is_uplink(req);
        proof {
            assert(self@.last_client =~= Seq::<SampleModel>::empty());
            assert(self@.last_server =~= Seq::<SampleModel>::empty());
        }
        let clear_url = match &self.server_api_url {
            Some(base) => {
                let mut u = base.clone();
                u.append("/server/clear");
                Some(u)
            },
            None => None,
        };
        ClientSpawn {
            args: client_args(req),
            clear_url,
            handshake_timeout: effective_handshake_timeout(req),
            warning: rr_downlink_warning(req),
        }
    }

    /// Takes in a line of output of a process. Where it is an interval row on the
    /// standard output, its sample is kept, given the doubles that the row denotes.
    pub fn capture_line(
        &mut self,
        side: Side,
        stream: OutputStream,
        line: String,
        doubles: &RowDoubles,
    )
        requires
            old(self).wf(),
        ensures
            final(self).wf(),
            final(self)@ == captured(
                old(self)@,
                (CapturedLine { side, stream, line: line@, doubles: *doubles }),
            ),
    {
        let ghost m = self@;
        let ghost c = CapturedLine { side, stream, line: line@, doubles: *doubles };
        let sample = match stream {
            OutputStream::Stdout => line_sample(line.as_str(), doubles),
            OutputStream::Stderr => None,
        };
        let ghost added = if sample is Some {
            seq![sample.unwrap()@]
        } else {
            Seq::<SampleModel>::empty()
        };
        assert(added == line_samples(c));
        match side {
            Side::Server => {
                self.server.push_line(line);
                if let Some(s) = sample {
                    self.last_server.push(s);
                }
                assert(self@.last_server =~= m.last_server + added);
            },
            Side::Client => {
                self.client.push_line(line);
                if let Some(s) = sample {
                    self.last_client.push(s);
                }
                assert(self@.last_client =~= m.last_client + added);
            },
        }
    }

    /// Forgets the samples of the server.
    pub fn server_clear(&mut self)
        requires
            old(self).wf(),
        ensures
            final(self).wf(),
            final(self)@ == server_forgotten(old(self)@),
    {
        self.last_server.clear();
        assert(self@.last_server =~= Seq::<SampleModel>::empty());
    }

    /// The state of both processes, given a look at each.
    pub fn overall_status(&mut self, server: ChildPoll, client: ChildPoll) -> (r: OverallStatus)
        requires
            old(self).wf(),
        ensures
            final(self).wf(),
            final(self)@ == both_polled(old(self)@, server, client),
            (r.server.running, r.server.pid, texts(r.server.output@)) == reported_state(
                old(self)@.server,
                server,
            ),
            (r.client.running, r.client.pid, texts(r.client.output@)) == reported_state(
                old(self)@.client,
                client,
            ),
    {
        let server = self.server.status_snapshot(server);
        let client = self.client.status_snapshot(client);
        OverallStatus { server, client }
    }
}

} // verus!
