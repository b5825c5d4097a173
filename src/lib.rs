//! Connection acceptance and readiness dispatch for a tunnel relay server.
//!
//! The acceptor keeps a registry of accepted client sessions and hands out
//! client ids from a counter that never goes back. Socket work (binding,
//! accepting, session construction, logging) is done by the caller; this
//! crate decides what each readiness event does to the registry and which
//! log line it produces.

pub mod log_line;
pub mod tunnel_server;
