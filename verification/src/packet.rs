//! Logical packet headers and packets. The wire encoding is an external
//! concern; the core works on these plain field values.

use vstd::prelude::*;
use crate::params::HEADER_SIZE;
use crate::params::UDP_IPV4_MTU;
use crate::params::UDP_IPV6_MTU;

verus! {

/// The five packet types of the protocol.
#[derive(Clone, Copy, Debug, PartialEq, Eq, Structural)]
pub enum PacketType {
    Syn,
    State,
    Data,
    Fin,
    Reset,
}

/// The logical fields of a packet header.
#[derive(Clone, Copy, Debug, PartialEq, Eq, Structural)]
pub struct Header {
    pub packet_type: PacketType,
    pub connection_id: u16,
    pub seq_number: u16,
    pub ack_number: u16,
    /// Receive window advertised by the sender, in bytes.
    pub window_size: u32,
    /// Send time in microseconds.
    pub timestamp_micros: u64,
    /// The sender's measured one-way delay, echoed back, in microseconds.
    pub timestamp_diff_micros: u32,
}

impl Header {
    /// A header of the given type with all other fields zero.
    pub fn new(packet_type: PacketType) -> (r: Header)
        ensures
            r.packet_type == packet_type,
            r.connection_id == 0,
            r.seq_number == 0,
            r.ack_number == 0,
            r.window_size == 0,
            r.timestamp_micros == 0,
            r.timestamp_diff_micros == 0,
    {
        Header {
            packet_type,
            connection_id: 0,
            seq_number: 0,
            ack_number: 0,
            window_size: 0,
            timestamp_micros: 0,
            timestamp_diff_micros: 0,
        }
    }
}

/// A header together with its payload bytes.
pub struct Packet {
    pub header: Header,
    pub payload: Vec<u8>,
}

/// Payload capacity of one packet for the given IP family: the family's
/// MTU less the header.
pub open spec fn max_payload_spec(is_ipv4: bool) -> int {
    if is_ipv4 {
        UDP_IPV4_MTU - HEADER_SIZE
    } else {
        UDP_IPV6_MTU - HEADER_SIZE
    }
}

impl Packet {
    /// Size on the wire: header plus payload.
    pub open spec fn size_spec(self) -> int {
        HEADER_SIZE + self.payload@.len()
    }

    /// A packet never larger than an IPv4-sized datagram.
    pub open spec fn wf(self) -> bool {
        self.payload@.len() <= max_payload_spec(true)
    }

    pub fn size(&self) -> (r: u64)
        requires
            self.payload@.len() <= 0xffff,
        ensures
            r == self.size_spec(),
    {
        HEADER_SIZE + self.payload.len() as u64
    }

    pub fn get_seq_number(&self) -> (r: u16)
        ensures
            r == self.header.seq_number,
    {
        self.header.seq_number
    }
}

} // verus!
