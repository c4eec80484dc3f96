//! A relay core for multi-user voice channels: the wire codec, the per-sender
//! jitter buffer, the session tables and the decisions of the handshake,
//! dispatch, fan-out and housekeeping paths.
//!
//! The core is a state machine. It reads no clock and touches no socket: the
//! caller hands in each datagram with its source and the instant, and each
//! tick of the timers, and gets back what to send and what to report. Every
//! decision is stated as a function on the state as a mathematical value,
//! and the executable code is proved to compute it.

pub mod auth;
pub mod channels;
pub mod dispatch;
pub mod fanout;
pub mod handlers;
pub mod handshake;
pub mod housekeeping;
pub mod jitter;
pub mod packet;
pub mod safety;
pub mod security;
pub mod server;
pub mod state;
pub mod table;
pub mod text;
pub mod wire;
