//! Verified core of a player-count exporter for a game server's remote
//! console (RCON).
//!
//! The crate holds the logic with real correctness constraints: the binary
//! wire framing of RCON packets, request/response correlation and the auth
//! handshake, the parser that extracts a player count from a status reply,
//! and the polling session's state machine with its stale-value policy.
//! Socket I/O, signal handling and the metrics HTTP listener live outside,
//! in an ordinary binary that drives these functions.

pub mod client;
pub mod packet;
pub mod parse;
pub mod session;
