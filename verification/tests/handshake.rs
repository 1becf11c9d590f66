use utp_core::connection::ConnState;
use utp_core::connection::Connection;
use utp_core::packet::Header;
use utp_core::packet::Packet;
use utp_core::packet::PacketType;

fn bare_packet(header: Header) -> Packet {
    Packet { header, payload: Vec::new() }
}

#[test]
fn scenario_active_passive_handshake() {
    // Endpoint A (as if bound to 127.0.0.1:9000) actively opens toward
    // endpoint B (as if bound to 127.0.0.1:9001); the wire is simulated
    // by handing each endpoint the other's packets.
    let mut a = Connection::new(true);
    let mut b = Connection::new(true);
    assert_eq!(a.state, ConnState::Idle);
    assert_eq!(b.state, ConnState::Idle);

    let syn = a.connect_start(true).unwrap();
    assert_eq!(syn.packet_type, PacketType::Syn);
    assert_eq!(syn.connection_id, a.recv_id);
    // No reply yet: A has not even left Idle.
    assert_eq!(a.state, ConnState::Idle);

    // B passively receives the SYN: None -> Connected.
    let r = b.dispatch(&bare_packet(syn), 1_000);
    assert!(r.is_ok());
    assert_eq!(b.state, ConnState::Connected);
    // B adopts the peer's connection id: send to it, listen next to it.
    assert_eq!(b.send_id, syn.connection_id);
    assert_eq!(b.recv_id, syn.connection_id.wrapping_add(1));
    // B's cumulative ack starts at the peer's sequence number.
    assert_eq!(b.ack_number, syn.seq_number);

    // B acknowledges; A takes the reply: None -> SynSent -> Connected.
    let mut ack = b.send_ack();
    ack.window_size = 1_048_576;
    let r = a.on_connect_reply(true, &bare_packet(ack), 2_000);
    assert!(r.is_ok());
    assert_eq!(a.state, ConnState::Connected);
    assert_eq!(a.ack_number, ack.seq_number.wrapping_sub(1));
    assert_eq!(a.remote_window, 1_048_576);

    // Complementary ids on both sides.
    assert_eq!(a.recv_id, a.send_id.wrapping_add(1));
    assert_eq!(b.recv_id, b.send_id.wrapping_add(1));
    assert_eq!(b.send_id, a.recv_id);
}

#[test]
fn duplicate_syn_is_ignored() {
    let mut b = Connection::new(true);
    let syn = Header {
        packet_type: PacketType::Syn,
        connection_id: 700,
        seq_number: 41,
        ack_number: 0,
        window_size: 1_048_576,
        timestamp_micros: 0,
        timestamp_diff_micros: 0,
    };
    assert!(b.dispatch(&bare_packet(syn), 100).is_ok());
    assert_eq!(b.state, ConnState::Connected);
    let seq_after = b.seq_number;

    // The retransmitted SYN changes nothing.
    assert!(b.dispatch(&bare_packet(syn), 200).is_ok());
    assert_eq!(b.state, ConnState::Connected);
    assert_eq!(b.seq_number, seq_after);
    assert_eq!(b.send_id, 700);
    assert_eq!(b.recv_id, 701);
}

#[test]
fn data_advances_cumulative_ack_in_order_only() {
    let mut b = Connection::new(true);
    let syn = Header {
        packet_type: PacketType::Syn,
        connection_id: 700,
        seq_number: 41,
        ack_number: 0,
        window_size: 1_048_576,
        timestamp_micros: 0,
        timestamp_diff_micros: 0,
    };
    assert!(b.dispatch(&bare_packet(syn), 100).is_ok());
    assert_eq!(b.ack_number, 41);

    let mut data = Header {
        packet_type: PacketType::Data,
        connection_id: 701,
        seq_number: 43,
        ack_number: 0,
        window_size: 0,
        timestamp_micros: 0,
        timestamp_diff_micros: 0,
    };
    // Out of order: dropped, the cumulative ack stays.
    assert!(b.dispatch(&bare_packet(data), 200).is_ok());
    assert_eq!(b.ack_number, 41);
    // In order: the cumulative ack advances.
    data.seq_number = 42;
    assert!(b.dispatch(&bare_packet(data), 300).is_ok());
    assert_eq!(b.ack_number, 42);
}

#[test]
fn reset_aborts_the_connection() {
    let mut b = Connection::new(true);
    let syn = Header {
        packet_type: PacketType::Syn,
        connection_id: 700,
        seq_number: 41,
        ack_number: 0,
        window_size: 1_048_576,
        timestamp_micros: 0,
        timestamp_diff_micros: 0,
    };
    assert!(b.dispatch(&bare_packet(syn), 100).is_ok());
    assert_eq!(b.state, ConnState::Connected);

    let reset = Header {
        packet_type: PacketType::Reset,
        connection_id: 701,
        seq_number: 50,
        ack_number: 0,
        window_size: 0,
        timestamp_micros: 0,
        timestamp_diff_micros: 0,
    };
    let r = b.dispatch(&bare_packet(reset), 200);
    assert_eq!(r, Err(utp_core::connection::UtpError::ConnectionReset));
    assert_eq!(b.state, ConnState::Idle);
}
