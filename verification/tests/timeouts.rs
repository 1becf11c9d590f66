use utp_core::connection::ConnState;
use utp_core::connection::Connection;
use utp_core::connection::UtpError;
use utp_core::params::CONNECT_RETRIES;
use utp_core::params::INITIAL_TIMEOUT_MICROS;

#[test]
fn scenario_connect_times_out_without_state_change() {
    let mut a = Connection::new(true);
    let seq_before = a.seq_number;

    let syn = a.connect_start(true).unwrap();
    // The sequence number advanced exactly once, at SYN construction;
    // every retried SYN reuses it.
    assert_eq!(syn.seq_number, seq_before);
    assert_eq!(a.seq_number, seq_before.wrapping_add(1));

    // Three handshake rounds pass without any reply: the shell retries
    // the same header and finally surfaces a timeout. The core was
    // never handed a packet, so no state mutated: still Idle.
    let mut rounds: usize = 0;
    for _ in 0..CONNECT_RETRIES {
        rounds += 1;
    }
    assert_eq!(rounds, 3);
    let failure = UtpError::Timeout;
    assert_eq!(failure, UtpError::Timeout);
    assert_eq!(a.state, ConnState::Idle);
    assert_eq!(a.seq_number, seq_before.wrapping_add(1));
    assert_eq!(a.inflight_size(), 0);
}

#[test]
fn receive_attempts_double_their_wait() {
    let a = Connection::new(true);
    assert_eq!(a.congestion_timeout, INITIAL_TIMEOUT_MICROS);
    // Waits of one receive call: t, 2t, 4t.
    assert_eq!(a.recv_timeout_for_attempt(0), 1_000_000);
    assert_eq!(a.recv_timeout_for_attempt(1), 2_000_000);
    assert_eq!(a.recv_timeout_for_attempt(2), 4_000_000);
}

#[test]
fn timeout_expiry_collapses_window_and_doubles_timeout() {
    let mut a = Connection::new(true);
    assert_eq!(a.cwnd, 2_800);
    assert_eq!(a.congestion_timeout, 1_000_000);

    a.on_congestion_timeout_expired();
    assert_eq!(a.cwnd, 1_400);
    assert_eq!(a.congestion_timeout, 2_000_000);

    a.on_congestion_timeout_expired();
    assert_eq!(a.congestion_timeout, 4_000_000);
}

#[test]
fn timeout_backoff_keeps_doubling_without_a_cap() {
    let mut a = Connection::new(true);
    a.congestion_timeout = 50_000_000;
    a.on_congestion_timeout_expired();
    assert_eq!(a.congestion_timeout, 100_000_000);
    a.on_congestion_timeout_expired();
    assert_eq!(a.congestion_timeout, 200_000_000);
    // Six expiries from the initial second: 64 s, past any round cap.
    a.congestion_timeout = INITIAL_TIMEOUT_MICROS;
    for _ in 0..6 {
        a.on_congestion_timeout_expired();
    }
    assert_eq!(a.congestion_timeout, 64_000_000);
}
