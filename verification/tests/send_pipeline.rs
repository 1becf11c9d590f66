use utp_core::connection::ConnState;
use utp_core::connection::Connection;
use utp_core::connection::segment_payload;
use utp_core::packet::Header;
use utp_core::packet::Packet;
use utp_core::packet::PacketType;

fn bare_packet(header: Header) -> Packet {
    Packet { header, payload: Vec::new() }
}

/// Bring a fresh active opener into the data phase with a 1 MiB remote
/// window.
fn connected_endpoint() -> Connection {
    let mut a = Connection::new(true);
    a.connect_start(true).unwrap();
    let reply = Header {
        packet_type: PacketType::State,
        connection_id: a.recv_id,
        seq_number: 9_000,
        ack_number: 0,
        window_size: 1_048_576,
        timestamp_micros: 0,
        timestamp_diff_micros: 0,
    };
    a.on_connect_reply(true, &bare_packet(reply), 1_000).unwrap();
    assert_eq!(a.state, ConnState::Connected);
    assert_eq!(a.remote_window, 1_048_576);
    a
}

fn ack_for(a: &Connection, acked_seq: u16) -> Packet {
    bare_packet(Header {
        packet_type: PacketType::State,
        connection_id: a.recv_id,
        seq_number: 9_001,
        ack_number: acked_seq,
        window_size: 1_048_576,
        timestamp_micros: 0,
        timestamp_diff_micros: 0,
    })
}

#[test]
fn scenario_five_thousand_bytes_in_four_packets() {
    let mut a = connected_endpoint();
    assert_eq!(a.packet_size(), 1_400);

    let data = vec![7u8; 5_000];
    let chunks = segment_payload(&data, a.packet_size() as usize);
    assert_eq!(chunks.len(), 4);
    assert_eq!(chunks[0].len(), 1_400);
    assert_eq!(chunks[3].len(), 800);

    let mut seqs: Vec<u16> = Vec::new();
    let mut oldest_unacked: usize = 0;
    for chunk in chunks {
        let wire_size = 20 + chunk.len() as u64;
        // The send pipeline blocks on the window by pumping the receive
        // loop; here the peer acknowledges the oldest packet in flight.
        while !a.can_transmit(wire_size) {
            let ack = ack_for(&a, seqs[oldest_unacked]);
            a.dispatch(&ack, 2_000).unwrap();
            oldest_unacked += 1;
        }
        let h = a.prepare_data_packet(chunk, 2_000);
        assert_eq!(h.packet_type, PacketType::Data);
        seqs.push(h.seq_number);
    }
    assert_eq!(seqs.len(), 4);
    // Strictly increasing sequence numbers, one per packet.
    for i in 1..seqs.len() {
        assert_eq!(seqs[i], seqs[i - 1].wrapping_add(1));
    }

    // The send completes only once the last packet is acknowledged.
    let last = a.last_sent_seq();
    assert_eq!(last, seqs[3]);
    assert!(!a.is_packet_acked(last));
    while !a.is_packet_acked(last) {
        let ack = ack_for(&a, seqs[oldest_unacked]);
        a.dispatch(&ack, 3_000).unwrap();
        oldest_unacked += 1;
    }
    assert!(a.is_packet_acked(last));
    assert_eq!(a.inflight_size(), 0);
}

#[test]
fn admission_never_exceeds_the_effective_window() {
    let mut a = connected_endpoint();
    // Effective window is min(cwnd, remote_window) = 2800 bytes.
    assert_eq!(a.cwnd, 2_800);

    // Two 1400-byte frames fill the window exactly.
    assert!(a.can_transmit(1_400));
    a.prepare_data_packet(vec![1u8; 1_380], 100);
    assert!(a.can_transmit(1_400));
    a.prepare_data_packet(vec![2u8; 1_380], 200);
    assert_eq!(a.inflight_size(), 2_800);
    // The third would overrun min(cwnd, remote_window): refused.
    assert!(!a.can_transmit(1_400));
    // Even the smallest frame is refused at a full window.
    assert!(!a.can_transmit(20));
}

#[test]
fn cumulative_ack_removes_exactly_the_covered_prefix() {
    let mut a = connected_endpoint();
    let first = a.prepare_data_packet(vec![1u8; 100], 100);
    let second = a.prepare_data_packet(vec![2u8; 200], 200);
    let third = a.prepare_data_packet(vec![3u8; 300], 300);
    assert_eq!(a.inflight_size(), 120 + 220 + 320);

    // Acknowledging the second packet covers the first two and nothing
    // beyond them.
    a.dispatch(&ack_for(&a, second.seq_number), 400).unwrap();
    assert!(a.is_packet_acked(first.seq_number));
    assert!(a.is_packet_acked(second.seq_number));
    assert!(!a.is_packet_acked(third.seq_number));
    assert_eq!(a.inflight_size(), 320);

    a.dispatch(&ack_for(&a, third.seq_number), 500).unwrap();
    assert_eq!(a.inflight_size(), 0);
}

#[test]
fn an_echoed_delay_drives_the_window_and_the_timeout() {
    let mut a = connected_endpoint();
    a.prepare_data_packet(vec![0u8; 1_380], 1_000);
    let p2 = a.prepare_data_packet(vec![0u8; 1_380], 2_000);
    assert_eq!(a.inflight_size(), 2_800);
    assert_eq!(a.cwnd, 2_800);

    // The peer acknowledges both packets and echoes a 50 ms one-way
    // delay; dispatched 50 ms after the second packet went out.
    let ack = bare_packet(Header {
        packet_type: PacketType::State,
        connection_id: a.recv_id,
        seq_number: 9_001,
        ack_number: p2.seq_number,
        window_size: 1_048_576,
        timestamp_micros: 0,
        timestamp_diff_micros: 50_000,
    });
    a.dispatch(&ack, 52_000).unwrap();
    assert_eq!(a.inflight_size(), 0);

    // First delay sample: base == current == 50 ms, queuing delay 0, so
    // the LEDBAT term is bytes_acked x MSS / cwnd = 1400, and the cap
    // (2800 in flight + one segment) does not bite.
    assert_eq!(a.delay_history.base_delay(), 50_000);
    assert_eq!(a.cwnd, 4_200);

    // The 50 ms round trip of the matched packet seeds the estimator;
    // its timeout clamps up to the minimum.
    assert_eq!(a.srtt, 50_000);
    assert_eq!(a.rttvar, 25_000);
    assert_eq!(a.congestion_timeout, 500_000);
}

#[test]
fn segmentation_covers_the_buffer_in_order() {
    let data: Vec<u8> = (0..10u8).collect();
    let chunks = segment_payload(&data, 4);
    assert_eq!(chunks.len(), 3);
    assert_eq!(chunks[0], vec![0, 1, 2, 3]);
    assert_eq!(chunks[1], vec![4, 5, 6, 7]);
    assert_eq!(chunks[2], vec![8, 9]);

    let empty: Vec<u8> = Vec::new();
    assert_eq!(segment_payload(&empty, 4).len(), 0);
}
