//! Throughput benchmarking over a multipath QUIC transport.

pub mod text;
pub mod numerals;
pub mod intervals;
pub mod wire;
pub mod framing;
pub mod maps;
pub mod stream;
pub mod transfer_laws;
pub mod dense;
pub mod json_line;
pub mod paths;
pub mod clock;
pub mod traffic_metrics;
pub mod scheduler_rr;
pub mod scores;
pub mod scheduler_linucb;
pub mod linucb_laws;
pub mod random;
pub mod scheduler_epsilon_greedy;
pub mod greedy_laws;
pub mod line_laws;
pub mod record_laws;
pub mod server;
pub mod stats;
pub mod client;
pub mod client_laws;
pub mod report;
pub mod server_laws;
pub mod interval_laws;
pub mod kernel_net_stats;
pub mod models;
pub mod commands;
pub mod command_laws;
pub mod state;
pub mod results;
pub mod result_laws;
pub mod summary_laws;
pub mod text_laws;
pub mod wandb_logger;
pub mod control;
pub mod counts;
