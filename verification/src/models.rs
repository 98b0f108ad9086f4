//! Requests to start the benchmark server and client, and their defaults.

use crate::state::ProcessStatus;
use vstd::prelude::*;
use vstd::string::StringExecFns;

verus! {

/// What the server is started with.
#[derive(Debug)]
pub struct ServerStartRequest {
    /// TLS certificate file.
    pub cert: String,
    /// TLS private key file.
    pub key: String,
    /// Address to listen on.
    pub listen: String,
    /// Congestion control algorithm.
    pub congestion_control: String,
    /// In packets.
    pub initial_congestion_window: Option<u64>,
    /// In packets.
    pub min_congestion_window: Option<u64>,
    pub log_level: String,
    /// Logs go to the standard error where it is absent.
    pub log_file: Option<String>,
    pub qlog_dir: Option<String>,
    pub enable_multipath: bool,
    /// Multipath scheduling algorithm.
    pub multipath_algor: Option<String>,
    /// In bytes.
    pub send_udp_payload_size: Option<u64>,
    /// In bytes.
    pub recv_udp_payload_size: Option<u64>,
    pub handshake_timeout: Option<u64>,
    pub idle_timeout: Option<u64>,
    /// In milliseconds.
    pub initial_rtt: Option<u64>,
    pub pto_linear_factor: Option<u64>,
    pub max_pto: Option<u64>,
    pub anti_amplification_factor: Option<u64>,
    pub send_batch_size: Option<u64>,
    pub enable_retry: bool,
    pub zerortt_buffer_size: Option<u64>,
    pub disable_encryption: bool,
    /// Working directory of the process.
    pub work_dir: Option<String>,
    pub keylog_file: Option<String>,
    /// Flags that are passed on as they are.
    pub extra_args: Vec<String>,
}

/// What the client is started with.
#[derive(Debug)]
pub struct ClientStartRequest {
    /// `host:port` of the server.
    pub connect_to: String,
    pub local_addresses: Vec<String>,
    /// In seconds.
    pub duration: Option<u64>,
    pub streams_per_conn: Option<u64>,
    /// Like `500M` or `1G`; unlimited where it is absent.
    pub bandwidth: Option<String>,
    /// `downlink` or `uplink`.
    pub mode: String,
    /// Congestion control algorithm.
    pub congestion_control: String,
    /// In packets.
    pub initial_congestion_window: Option<u64>,
    /// In packets.
    pub min_congestion_window: Option<u64>,
    pub log_level: String,
    /// Logs go to the standard error where it is absent.
    pub log_file: Option<String>,
    pub qlog_dir: Option<String>,
    pub enable_multipath: bool,
    /// Multipath scheduling algorithm.
    pub multipath_algor: Option<String>,
    /// Exploration coefficient of the LinUCB scheduler, as it is written.
    pub linucb_alpha: Option<String>,
    /// In bytes.
    pub send_udp_payload_size: Option<u64>,
    /// In bytes.
    pub recv_udp_payload_size: Option<u64>,
    pub handshake_timeout: Option<u64>,
    pub idle_timeout: Option<u64>,
    /// In milliseconds.
    pub initial_rtt: Option<u64>,
    pub pto_linear_factor: Option<u64>,
    pub max_pto: Option<u64>,
    pub send_batch_size: Option<u64>,
    pub threads: Option<u64>,
    pub max_concurrent_conns: Option<u64>,
    pub max_concurrent_requests: Option<u64>,
    pub keylog_file: Option<String>,
    pub disable_encryption: bool,
    /// Working directory of the process.
    pub work_dir: Option<String>,
    /// Flags that are passed on as they are.
    pub extra_args: Vec<String>,
}

/// The state of both processes.
#[derive(Debug)]
pub struct OverallStatus {
    pub server: ProcessStatus,
    pub client: ProcessStatus,
}

/// The address that a server listens on.
pub fn default_listen() -> (r: String)
    ensures
        r@ == "0.0.0.0:4433"@,
{
    String::from_str("0.0.0.0:4433")
}

/// The congestion control algorithm.
pub fn default_cc() -> (r: String)
    ensures
        r@ == "cubic"@,
{
    String::from_str("cubic")
}

/// The log level.
pub fn default_log() -> (r: String)
    ensures
        r@ == "info"@,
{
    String::from_str("info")
}

/// The direction of a transfer.
pub fn default_mode() -> (r: String)
    ensures
        r@ == "downlink"@,
{
    String::from_str("downlink")
}

} // verus!
