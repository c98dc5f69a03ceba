//! MicroWAF: rule engine, sliding windows, policy merge, L7 detectors and
//! the daemon's decision logic, with their contracts proved by Verus.

pub mod assoc;
pub mod error;
pub mod text;
pub mod rule;
pub mod window;
pub mod policy;
pub mod cel_syntax;
pub mod cel_match;
pub mod client;
pub mod client_map;
pub mod counters;
pub mod enforcer;
pub mod config;
pub mod wire;
pub mod daemon;
pub mod version;
pub mod ipc;
pub mod iface;
pub mod table;
pub mod store;
mod memory_policies;
mod memory_stats;
pub mod z21;
pub mod ws;
pub mod withrottle;
pub mod http;
pub mod packet;
pub mod sniffer;
pub mod rpc;
pub mod bpf;
pub mod settings;
pub mod render;
pub mod cli;
