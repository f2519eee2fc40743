//! Health-aware, multi-protocol L4 forwarding engine.
//!
//! The crate models the control plane of a port forwarder: target
//! resolution and selection, health accounting, per-client UDP session
//! tracking, HTTP redirect construction, and the NAT rule set that a
//! kernel-offload backend applies. All decision logic is verified; the
//! sockets, timers and external commands live with the caller.

pub mod common;
pub mod config;
pub mod endpoint;
pub mod firewall;
pub mod forwarder;
pub mod http;
pub mod resolve;
pub mod selection;
pub mod stats;
pub mod store;
pub mod sync;
pub mod target;
pub mod text;
pub mod udp;
