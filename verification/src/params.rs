//! Protocol constants shared by the connection core.

use vstd::prelude::*;

verus! {

/// Number of rolling minimum-delay buckets kept as the LEDBAT baseline.
pub const BASE_HISTORY: usize = 10;

/// Width of one base-delay bucket, in microseconds (one minute).
pub const BASE_BUCKET_MICROS: u64 = 60_000_000;

/// Sender's maximum segment size in bytes (Ethernet-sized).
pub const MSS: u64 = 1400;

/// Congestion-window floor, in segments.
pub const MIN_CWND: u64 = 2;

/// Initial congestion window, in segments.
pub const INIT_CWND: u64 = 2;

/// LEDBAT target queuing delay, in microseconds (100 ms).
pub const TARGET: i64 = 100_000;

/// LEDBAT gain applied to the window-growth term.
pub const GAIN: i64 = 1;

/// Cap on window growth beyond the bytes actually in flight, in segments.
pub const ALLOWED_INCREASE: u64 = 1;

/// Size of an encoded packet header, in bytes.
pub const HEADER_SIZE: u64 = 20;

/// Largest datagram this endpoint sends over IPv4, in bytes.
pub const UDP_IPV4_MTU: u64 = 1420;

/// Largest datagram this endpoint sends over IPv6, in bytes.
pub const UDP_IPV6_MTU: u64 = 1400;

/// Receive window advertised to the peer, in bytes (1 MiB).
pub const DEFAULT_WINDOW: u32 = 1_048_576;

/// Initial congestion timeout, in microseconds (1 s).
pub const INITIAL_TIMEOUT_MICROS: u64 = 1_000_000;

/// Timeout of one handshake round, in microseconds (1 s).
pub const CONNECT_TIMEOUT_MICROS: u64 = 1_000_000;

/// Number of rounds a `connect` handshake is attempted.
pub const CONNECT_RETRIES: usize = 3;

/// Number of attempts one receive call makes before it times out.
pub const RECV_RETRIES: usize = 3;

/// Smallest congestion timeout the round-trip estimator will set, in
/// microseconds.
pub const MIN_TIMEOUT_MICROS: u64 = 500_000;

/// Largest congestion timeout the round-trip estimator will set, in
/// microseconds (60 s). Only the estimator clamps here; the doubling on
/// a timeout expiry is unbounded.
pub const MAX_TIMEOUT_MICROS: u64 = 60_000_000;

/// Sentinel delay value meaning "no sample observed".
pub const DELAY_INFINITY: i64 = 0x7fff_ffff_ffff_ffff;

/// Bound on a single delay or round-trip sample, in microseconds.
pub const MAX_DELAY_MICROS: i64 = 0xffff_ffff;

} // verus!
