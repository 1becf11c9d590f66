use utp_core::connection::ConnState;
use utp_core::connection::Connection;
use utp_core::packet::Header;
use utp_core::packet::Packet;
use utp_core::packet::PacketType;
use utp_core::seqnum::seq_le;

fn bare_packet(header: Header) -> Packet {
    Packet { header, payload: Vec::new() }
}

#[test]
fn wrap_aware_order_crosses_the_counter_boundary() {
    assert!(seq_le(10, 10));
    assert!(seq_le(10, 11));
    assert!(!seq_le(11, 10));
    // Across the wrap: 0xfffe comes before 1.
    assert!(seq_le(0xfffe, 1));
    assert!(!seq_le(1, 0xfffe));
    // Half the space ahead is no longer "after".
    assert!(!seq_le(0, 0x8000));
}

#[test]
fn transmission_and_acks_survive_the_wrap() {
    let mut a = Connection::new(true);
    a.connect_start(true).unwrap();
    let reply = Header {
        packet_type: PacketType::State,
        connection_id: a.recv_id,
        seq_number: 9_000,
        ack_number: 0,
        window_size: 1_048_576,
        timestamp_micros: 0,
        timestamp_diff_micros: 0,
    };
    a.on_connect_reply(true, &bare_packet(reply), 1_000).unwrap();
    assert_eq!(a.state, ConnState::Connected);

    // Park the counter right before the wrap point.
    a.seq_number = 0xfffe;
    let p1 = a.prepare_data_packet(vec![1u8; 10], 100);
    let p2 = a.prepare_data_packet(vec![2u8; 10], 200);
    let p3 = a.prepare_data_packet(vec![3u8; 10], 300);
    assert_eq!(p1.seq_number, 0xfffe);
    assert_eq!(p2.seq_number, 0xffff);
    assert_eq!(p3.seq_number, 0);

    // A cumulative acknowledgement just past the wrap covers all three.
    let ack = bare_packet(Header {
        packet_type: PacketType::State,
        connection_id: a.recv_id,
        seq_number: 9_001,
        ack_number: 0,
        window_size: 1_048_576,
        timestamp_micros: 0,
        timestamp_diff_micros: 0,
    });
    a.dispatch(&ack, 400).unwrap();
    assert!(a.is_packet_acked(0xfffe));
    assert!(a.is_packet_acked(0xffff));
    assert!(a.is_packet_acked(0));
    assert_eq!(a.inflight_size(), 0);
}
