use utp_core::connection::ConnState;
use utp_core::connection::Connection;
use utp_core::connection::UtpError;
use utp_core::packet::Header;
use utp_core::packet::Packet;
use utp_core::packet::PacketType;

fn bare_packet(header: Header) -> Packet {
    Packet { header, payload: Vec::new() }
}

#[test]
fn connect_refuses_a_family_mismatch_before_any_io() {
    let mut a = Connection::new(true);
    let r = a.connect_start(false);
    assert_eq!(r, Err(UtpError::FamilyMismatch));
    // Fail-fast: nothing moved, not even the sequence number.
    assert_eq!(a.state, ConnState::Idle);

    let mut b = Connection::new(false);
    assert_eq!(b.connect_start(true), Err(UtpError::FamilyMismatch));
    assert!(b.connect_start(false).is_ok());
}

#[test]
fn unexpected_ack_is_an_error_not_a_panic() {
    let mut b = Connection::new(true);
    let syn = Header {
        packet_type: PacketType::Syn,
        connection_id: 100,
        seq_number: 7,
        ack_number: 0,
        window_size: 1_048_576,
        timestamp_micros: 0,
        timestamp_diff_micros: 0,
    };
    b.dispatch(&bare_packet(syn), 10).unwrap();
    assert_eq!(b.state, ConnState::Connected);

    // Nothing is in flight, so any acknowledgement is an anomaly.
    let stray_ack = Header {
        packet_type: PacketType::State,
        connection_id: 100,
        seq_number: 8,
        ack_number: 12_345,
        window_size: 0,
        timestamp_micros: 0,
        timestamp_diff_micros: 0,
    };
    let r = b.dispatch(&bare_packet(stray_ack), 20);
    assert_eq!(r, Err(UtpError::UnexpectedAck));
    // The connection survives the anomaly.
    assert_eq!(b.state, ConnState::Connected);
}

#[test]
fn connection_ids_are_complementary() {
    for _ in 0..16 {
        let c = Connection::new(true);
        assert_eq!(c.recv_id, c.send_id.wrapping_add(1));
    }
}

#[test]
fn every_transmission_advances_the_sequence_number() {
    let mut b = Connection::new(true);
    let syn = Header {
        packet_type: PacketType::Syn,
        connection_id: 100,
        seq_number: 7,
        ack_number: 0,
        window_size: 1_048_576,
        timestamp_micros: 0,
        timestamp_diff_micros: 0,
    };
    b.dispatch(&bare_packet(syn), 10).unwrap();
    let s0 = b.seq_number;
    // A control packet consumes a sequence number like any other.
    let ack = b.send_ack();
    assert_eq!(ack.seq_number, s0);
    assert_eq!(b.seq_number, s0.wrapping_add(1));
    let ack2 = b.send_ack();
    assert_eq!(ack2.seq_number, s0.wrapping_add(1));
}
