//! Core of a uTP-style transport connection: the per-connection state
//! machine, the send-window admission logic, the delay-based (LEDBAT)
//! congestion controller, and the inflight-packet tracker.
//!
//! Datagram I/O and wire encoding live outside this crate; the types here
//! work on plain header values and byte payloads.

pub mod congestion;
pub mod connection;
pub mod delay;
pub mod inflight;
pub mod packet;
pub mod params;
mod rng;
pub mod seqnum;
