//! The per-connection state machine: connection identity, sequence
//! counters, handshake transitions, dispatch of incoming packets, the
//! send-window admission gate, and the wiring of acknowledgements into
//! the congestion controller.
//!
//! Datagram I/O stays outside: the functions here turn header values and
//! events (a decoded packet, a timeout expiry) into state changes and
//! headers to transmit, and a thin unverified shell performs the actual
//! sends and receives around them.

use vstd::prelude::*;
use vstd::arithmetic::div_mod::lemma_small_mod;
use crate::congestion::backoff_spec;
use crate::congestion::cwnd_after_ack;
use crate::congestion::cwnd_after_ack_spec;
use crate::congestion::cwnd_after_loss;
use crate::congestion::cwnd_after_loss_spec;
use crate::congestion::cwnd_floor;
use crate::congestion::rto_after;
use crate::congestion::rto_spec;
use crate::congestion::srtt_after_spec;
use crate::congestion::rttvar_after_spec;
use crate::delay::history_add_ok;
use crate::delay::min_delay_spec;
use crate::delay::DelayHistory;
use crate::inflight::bytes_in_first;
use crate::inflight::bytes_inflight;
use crate::inflight::covered_prefix_len;
use crate::inflight::find_seq_index;
use crate::inflight::has_seq;
use crate::inflight::InflightQueue;
use crate::packet::max_payload_spec;
use crate::packet::Header;
use crate::packet::Packet;
use crate::packet::PacketType;
use crate::params::DEFAULT_WINDOW;
use crate::params::DELAY_INFINITY;
use crate::params::HEADER_SIZE;
use crate::params::INITIAL_TIMEOUT_MICROS;
use crate::params::INIT_CWND;
use crate::params::MSS;
use crate::params::RECV_RETRIES;
use crate::params::UDP_IPV4_MTU;
use crate::params::UDP_IPV6_MTU;
use crate::rng::random_u16;
use crate::seqnum::lemma_dist_of_epochs;
use crate::seqnum::lemma_seq_of_epoch_step;
use crate::seqnum::seq_add1;
use crate::seqnum::seq_add1_spec;
use crate::seqnum::seq_of_epoch;
use crate::seqnum::seq_sub1;
use crate::seqnum::seq_sub1_spec;

verus! {

/// The connection lifecycle states.
#[derive(Clone, Copy, Debug, PartialEq, Eq, Structural)]
pub enum ConnState {
    /// Not yet connected.
    Idle,
    /// A SYN went out; no reply dispatched yet.
    SynSent,
    /// Handshake done; data flows.
    Connected,
    /// A FIN went out; draining.
    FinSent,
}

/// The errors the connection core itself can report. Transport faults
/// stay with the unverified I/O shell.
#[derive(Clone, Copy, Debug, PartialEq, Eq, Structural)]
pub enum UtpError {
    /// `connect` was given a peer of the other IP family.
    FamilyMismatch,
    /// A retry budget was exhausted without a reply.
    Timeout,
    /// An acknowledgement referenced a sequence number not in flight.
    UnexpectedAck,
    /// The peer reset the connection.
    ConnectionReset,
}

/// One endpoint's connection state.
pub struct Connection {
    /// IP family of the bound local address.
    pub local_is_ipv4: bool,
    /// IP family of the peer, once a reply latched it.
    pub remote_is_ipv4: Option<bool>,
    /// Connection id this endpoint listens on; `send_id + 1`.
    pub recv_id: u16,
    /// Connection id used when addressing the peer.
    pub send_id: u16,
    pub state: ConnState,
    /// Highest contiguous sequence number received from the peer.
    pub ack_number: u16,
    /// Sequence number the next transmitted packet will carry.
    pub seq_number: u16,
    /// One-way delay of the last dispatched packet, in microseconds.
    pub delay: i64,
    /// The peer's last-advertised receive window, in bytes.
    pub remote_window: u64,
    pub inflight_packets: InflightQueue,
    pub delay_history: DelayHistory,
    /// Congestion window, in bytes.
    pub cwnd: u64,
    /// Receive timeout before a retry, in microseconds.
    pub congestion_timeout: u64,
    /// Smoothed round-trip mean, in microseconds; 0 before any sample.
    pub srtt: u64,
    /// Smoothed round-trip variation, in microseconds.
    pub rttvar: u64,
    /// Unwrapped transmission counter behind `seq_number`.
    pub seq_epoch: Ghost<int>,
}

/// One-way delay of a packet stamped at `ts` and dispatched at `now`.
pub open spec fn delay_since_spec(now: u64, ts: u64) -> int {
    if now >= ts {
        now - ts
    } else {
        0
    }
}

/// Round-trip sample for a packet stamped at `ts` and acknowledged at
/// `now`, capped at the largest delay the estimator takes.
pub open spec fn rtt_sample_spec(now: u64, ts: u64) -> int {
    let raw = delay_since_spec(now, ts);
    if raw > 0xffff_ffff {
        0xffff_ffff
    } else {
        raw
    }
}

/// The controller has a usable delay signal: a smoothed sample and at
/// least one filled base bucket.
pub open spec fn has_delay_info(h: DelayHistory) -> bool {
    h.current != DELAY_INFINITY && min_delay_spec(h.base_delays@) != DELAY_INFINITY
}

/// The LEDBAT feedback signal: smoothed current delay minus base delay.
pub open spec fn queuing_delay_model(h: DelayHistory) -> int {
    h.current - min_delay_spec(h.base_delays@)
}

pub open spec fn same_identity(pre: Connection, post: Connection) -> bool {
    &&& post.local_is_ipv4 == pre.local_is_ipv4
    &&& post.remote_is_ipv4 == pre.remote_is_ipv4
    &&& post.recv_id == pre.recv_id
    &&& post.send_id == pre.send_id
}

pub open spec fn same_congestion(pre: Connection, post: Connection) -> bool {
    &&& post.cwnd == pre.cwnd
    &&& post.congestion_timeout == pre.congestion_timeout
    &&& post.srtt == pre.srtt
    &&& post.rttvar == pre.rttvar
    &&& post.delay_history == pre.delay_history
}

pub open spec fn same_counters(pre: Connection, post: Connection) -> bool {
    &&& post.seq_number == pre.seq_number
    &&& post.seq_epoch == pre.seq_epoch
    &&& post.ack_number == pre.ack_number
}

pub open spec fn same_inflight(pre: Connection, post: Connection) -> bool {
    post.inflight_packets == pre.inflight_packets
}

/// Every field except the measured one-way delay is unchanged.
pub open spec fn unchanged_but_delay(pre: Connection, post: Connection) -> bool {
    &&& same_identity(pre, post)
    &&& same_congestion(pre, post)
    &&& same_counters(pre, post)
    &&& same_inflight(pre, post)
    &&& post.remote_window == pre.remote_window
    &&& post.state == pre.state
}

/// Acknowledgement processing in the data phase: what one State packet
/// does to the connection.
///
/// When the acknowledged sequence number is not in flight the packet is
/// a protocol anomaly and nothing (besides the measured delay) changes.
/// Otherwise the covered front run leaves the inflight queue, a non-zero
/// echoed delay enters the delay history, the congestion window moves by
/// the LEDBAT rule over the updated history, and the round-trip
/// estimator re-derives the congestion timeout from this packet's
/// round trip.
pub open spec fn ack_transition(
    pre: Connection,
    post: Connection,
    h: Header,
    now: u64,
    r: Result<(), UtpError>,
) -> bool {
    let q = pre.inflight_packets.packets@;
    if !has_seq(q, h.ack_number) {
        &&& r == Err::<(), UtpError>(UtpError::UnexpectedAck)
        &&& unchanged_but_delay(pre, post)
    } else {
        let k = covered_prefix_len(q, h.ack_number);
        let bytes_acked = bytes_in_first(q, k);
        let inflight_before = bytes_inflight(q);
        let rtt = rtt_sample_spec(now, q[find_seq_index(q, h.ack_number)].header.timestamp_micros);
        &&& r == Ok::<(), UtpError>(())
        &&& post.inflight_packets.packets@ == q.skip(k)
        &&& post.inflight_packets.epochs@ == pre.inflight_packets.epochs@.skip(k)
        &&& (h.timestamp_diff_micros != 0 ==> history_add_ok(
            pre.delay_history,
            post.delay_history,
            h.timestamp_diff_micros as i64,
            now,
        ))
        &&& (h.timestamp_diff_micros == 0 ==> post.delay_history == pre.delay_history)
        &&& post.cwnd == (if has_delay_info(post.delay_history) {
            cwnd_after_ack_spec(
                pre.cwnd,
                queuing_delay_model(post.delay_history),
                bytes_acked as u64,
                inflight_before as u64,
            )
        } else {
            pre.cwnd as int
        })
        &&& post.srtt == srtt_after_spec(pre.srtt, rtt as u64)
        &&& post.rttvar == rttvar_after_spec(pre.srtt, pre.rttvar, rtt as u64)
        &&& post.congestion_timeout == rto_spec(post.srtt as int, post.rttvar as int)
        &&& post.state == pre.state
        &&& same_identity(pre, post)
        &&& post.seq_number == pre.seq_number
        &&& post.seq_epoch == pre.seq_epoch
        &&& post.ack_number == pre.ack_number
        &&& post.remote_window == pre.remote_window
    }
}

/// The dispatch table: what one decoded packet does to the connection,
/// keyed by packet type and current state. The measured one-way delay is
/// recomputed on every dispatched packet, whatever the table says.
pub open spec fn dispatch_transition(
    pre: Connection,
    post: Connection,
    h: Header,
    now: u64,
    r: Result<(), UtpError>,
) -> bool {
    &&& post.delay == delay_since_spec(now, h.timestamp_micros)
    &&& match (h.packet_type, pre.state) {
        (PacketType::Syn, ConnState::Idle) => {
            // Passive accept: adopt the peer's connection id and
            // sequence space, pick a fresh random sequence number.
            &&& r == Ok::<(), UtpError>(())
            &&& post.state == ConnState::Connected
            &&& post.recv_id == seq_add1_spec(h.connection_id)
            &&& post.send_id == h.connection_id
            &&& post.ack_number == h.seq_number
            &&& post.seq_epoch@ >= 0
            &&& post.seq_number == seq_of_epoch(post.seq_epoch@)
            &&& post.local_is_ipv4 == pre.local_is_ipv4
            &&& post.remote_is_ipv4 == pre.remote_is_ipv4
            &&& same_congestion(pre, post)
            &&& same_inflight(pre, post)
            &&& post.remote_window == pre.remote_window
        },
        (PacketType::Syn, _) => {
            // Duplicate SYN: ignored.
            &&& r == Ok::<(), UtpError>(())
            &&& unchanged_but_delay(pre, post)
        },
        (PacketType::State, ConnState::SynSent) => {
            // Handshake completion: the ACK of our SYN.
            &&& r == Ok::<(), UtpError>(())
            &&& post.state == ConnState::Connected
            &&& post.ack_number == seq_sub1_spec(h.seq_number)
            &&& post.remote_window == h.window_size as u64
            &&& same_identity(pre, post)
            &&& same_congestion(pre, post)
            &&& same_inflight(pre, post)
            &&& post.seq_number == pre.seq_number
            &&& post.seq_epoch == pre.seq_epoch
        },
        (PacketType::State, ConnState::Connected) => ack_transition(pre, post, h, now, r),
        (PacketType::State, _) => {
            // An ACK in a state with nothing to acknowledge: ignored.
            &&& r == Ok::<(), UtpError>(())
            &&& unchanged_but_delay(pre, post)
        },
        (PacketType::Data, _) => {
            // In-order data advances the cumulative acknowledgement;
            // anything else (out of order, or data outside the data
            // phase) is dropped, as reassembly is out of scope.
            &&& r == Ok::<(), UtpError>(())
            &&& if pre.state == ConnState::Connected && h.seq_number == seq_add1_spec(
                pre.ack_number,
            ) {
                &&& post.ack_number == h.seq_number
                &&& post.state == pre.state
                &&& same_identity(pre, post)
                &&& same_congestion(pre, post)
                &&& same_inflight(pre, post)
                &&& post.remote_window == pre.remote_window
                &&& post.seq_number == pre.seq_number
                &&& post.seq_epoch == pre.seq_epoch
            } else {
                unchanged_but_delay(pre, post)
            }
        },
        (PacketType::Fin, _) => {
            // Graceful teardown is not modeled: ignored.
            &&& r == Ok::<(), UtpError>(())
            &&& unchanged_but_delay(pre, post)
        },
        (PacketType::Reset, _) => {
            if pre.state == ConnState::Idle {
                &&& r == Ok::<(), UtpError>(())
                &&& unchanged_but_delay(pre, post)
            } else {
                // Abort: the connection dies and its unacknowledged
                // packets are dropped.
                &&& r == Err::<(), UtpError>(UtpError::ConnectionReset)
                &&& post.state == ConnState::Idle
                &&& post.inflight_packets.packets@.len() == 0
                &&& same_identity(pre, post)
                &&& same_congestion(pre, post)
                &&& post.remote_window == pre.remote_window
                &&& post.seq_number == pre.seq_number
                &&& post.seq_epoch == pre.seq_epoch
                &&& post.ack_number == pre.ack_number
            }
        },
    }
}

/// Split an outbound buffer into packet-sized chunks, in order: every
/// chunk is full except possibly the last, and together the chunks are
/// exactly the buffer.
pub fn segment_payload(data: &[u8], chunk: usize) -> (r: Vec<Vec<u8>>)
    requires
        1 <= chunk,
        data@.len() + chunk <= usize::MAX,
    ensures
        data@.len() == 0 ==> r@.len() == 0,
        data@.len() > 0 ==> (r@.len() - 1) * chunk < data@.len() <= r@.len() * chunk,
        forall|i: int|
            0 <= i < r@.len() ==> #[trigger] r@[i]@ == data@.subrange(
                i * chunk,
                if (i + 1) * chunk <= data@.len() {
                    (i + 1) * chunk
                } else {
                    data@.len() as int
                },
            ),
{
    let len = data.len();
    let mut r: Vec<Vec<u8>> = Vec::new();
    let mut off: usize = 0;
    while off < len
        invariant
            1 <= chunk,
            len == data@.len(),
            len + chunk <= usize::MAX,
            off <= len,
            off <= r@.len() * chunk,
            r@.len() * chunk < off + chunk,
            off < len ==> off == r@.len() * chunk,
            forall|i: int|
                0 <= i < r@.len() ==> #[trigger] r@[i]@ == data@.subrange(
                    i * chunk,
                    if (i + 1) * chunk <= len {
                        (i + 1) * chunk
                    } else {
                        len as int
                    },
                ),
        decreases len - off,
    {
        let end = if off + chunk <= len {
            off + chunk
        } else {
            len
        };
        let mut piece: Vec<u8> = Vec::new();
        proof {
            assert(piece@ =~= data@.subrange(off as int, off as int));
        }
        let mut j: usize = off;
        while j < end
            invariant
                off <= j <= end,
                end <= len,
                len == data@.len(),
                piece@ == data@.subrange(off as int, j as int),
            decreases end - j,
        {
            piece.push(data[j]);
            proof {
                assert(data@.subrange(off as int, j + 1) =~= data@.subrange(
                    off as int,
                    j as int,
                ).push(data@[j as int]));
            }
            j = j + 1;
        }
        proof {
            let n = r@.len();
            assert((n + 1) * chunk == n * chunk + chunk) by (nonlinear_arith);
        }
        r.push(piece);
        off = end;
    }
    proof {
        if len > 0 {
            let n = r@.len() as int;
            assert((n - 1) * chunk == n * chunk - chunk) by (nonlinear_arith);
        }
        if len == 0 {
            assert(r@.len() * chunk < chunk);
            if r@.len() >= 1 {
                assert(r@.len() * chunk >= 1 * chunk) by (nonlinear_arith)
                    requires
                        r@.len() >= 1,
                        chunk >= 1;
            }
        }
    }
    r
}

/// The window floor holds in every state the controller's own rules can
/// reach: acknowledgement processing keeps the congestion window at or
/// above `MIN_CWND x MSS` outright, and the loss response keeps it there
/// whenever it held before. (The one event outside this law is a
/// congestion-timeout expiry, which deliberately collapses the window to
/// a single segment.)
pub proof fn lemma_window_floor(
    pre: Connection,
    post: Connection,
    h: Header,
    now: u64,
    r: Result<(), UtpError>,
)
    requires
        pre.cwnd >= cwnd_floor(),
        ack_transition(pre, post, h, now, r) || post.cwnd == cwnd_after_loss_spec(pre.cwnd),
    ensures
        post.cwnd >= cwnd_floor(),
{
}

impl Connection {
    /// Internal consistency: the queue is well formed and every queued
    /// packet was transmitted before the next sequence number; the
    /// congestion quantities stay in their working ranges.
    pub open spec fn wf(self) -> bool {
        &&& self.inflight_packets.wf()
        &&& self.seq_epoch@ >= 0
        &&& self.seq_number == seq_of_epoch(self.seq_epoch@)
        &&& forall|i: int|
            0 <= i < self.inflight_packets.epochs@.len() ==> (#[trigger] self.inflight_packets.epochs@[i]) < self.seq_epoch@
        &&& self.inflight_packets.packets@.len() > 0 ==> self.seq_epoch@
            - self.inflight_packets.epochs@[0] < 0x8000
        &&& self.state == ConnState::Idle ==> self.inflight_packets.packets@.len() == 0
        &&& MSS <= self.cwnd <= 0x2_0000_0000
        &&& self.remote_window <= 0xffff_ffff
        &&& 1 <= self.congestion_timeout < 0x4000_0000_0000_0000
        &&& self.delay_history.wf()
        &&& self.srtt <= 0xffff_ffff
        &&& self.rttvar <= 0xffff_ffff
    }

    /// Bytes sent but not yet acknowledged.
    pub open spec fn inflight_bytes(self) -> int {
        bytes_inflight(self.inflight_packets.packets@)
    }

    /// Stamping one more packet keeps every queued packet within half
    /// the sequence space of the transmission counter: the room that
    /// `prepare_data_packet` and `send_ack` require.
    pub open spec fn sequence_room(self) -> bool {
        self.inflight_packets.packets@.len() == 0 || self.seq_epoch@
            - self.inflight_packets.epochs@[0] < 0x7fff
    }

    /// The send window actually in force: congestion window capped by
    /// the peer's advertised window.
    pub open spec fn effective_window(self) -> int {
        if self.cwnd <= self.remote_window {
            self.cwnd as int
        } else {
            self.remote_window as int
        }
    }

    /// Payload capacity of one data packet, by the peer's IP family
    /// (the local family's before a peer is latched).
    pub open spec fn packet_size_spec(self) -> int {
        max_payload_spec(
            match self.remote_is_ipv4 {
                Some(b) => b,
                None => true,
            },
        )
    }

    /// A fresh, unconnected endpoint: random connection ids with
    /// `recv_id = send_id + 1`, a random initial sequence number, the
    /// initial window and timeout.
    pub fn new(local_is_ipv4: bool) -> (r: Connection)
        ensures
            r.wf(),
            r.local_is_ipv4 == local_is_ipv4,
            r.remote_is_ipv4 == None::<bool>,
            r.state == ConnState::Idle,
            r.recv_id == seq_add1_spec(r.send_id),
            r.ack_number == 0,
            r.inflight_packets.packets@.len() == 0,
            r.cwnd == INIT_CWND * MSS,
            r.remote_window == INIT_CWND * MSS,
            r.congestion_timeout == INITIAL_TIMEOUT_MICROS,
            r.srtt == 0,
            r.rttvar == 0,
            r.delay_history.current == DELAY_INFINITY,
            r.delay_history.last_rollover == 0,
    {
        let id = random_u16();
        let seq = random_u16();
        proof {
            lemma_small_mod(seq as nat, 0x10000nat);
        }
        Connection {
            local_is_ipv4,
            remote_is_ipv4: None,
            recv_id: seq_add1(id),
            send_id: id,
            state: ConnState::Idle,
            ack_number: 0,
            seq_number: seq,
            delay: 0,
            remote_window: INIT_CWND * MSS,
            inflight_packets: InflightQueue::new(),
            delay_history: DelayHistory::new(),
            cwnd: INIT_CWND * MSS,
            congestion_timeout: INITIAL_TIMEOUT_MICROS,
            srtt: 0,
            rttvar: 0,
            seq_epoch: Ghost(seq as int),
        }
    }

    /// Start an active open: fail fast on an IP-family mismatch, else
    /// build the SYN header of the handshake. The sequence number
    /// advances exactly once, here; retried SYNs reuse it. The state
    /// does not change until a reply arrives.
    pub fn connect_start(&mut self, peer_is_ipv4: bool) -> (r: Result<Header, UtpError>)
        requires
            old(self).wf(),
            old(self).state == ConnState::Idle,
        ensures
            final(self).wf(),
            peer_is_ipv4 != old(self).local_is_ipv4 ==> {
                &&& r == Err::<Header, UtpError>(UtpError::FamilyMismatch)
                &&& *final(self) == *old(self)
            },
            peer_is_ipv4 == old(self).local_is_ipv4 ==> {
                &&& r == Ok::<Header, UtpError>(
                    (Header {
                        packet_type: PacketType::Syn,
                        connection_id: old(self).recv_id,
                        seq_number: old(self).seq_number,
                        ack_number: 0,
                        window_size: DEFAULT_WINDOW,
                        timestamp_micros: 0,
                        timestamp_diff_micros: 0,
                    }),
                )
                &&& final(self).seq_number == seq_add1_spec(old(self).seq_number)
                &&& final(self).seq_epoch@ == old(self).seq_epoch@ + 1
                &&& final(self).state == old(self).state
                &&& same_identity(*old(self), *final(self))
                &&& same_congestion(*old(self), *final(self))
                &&& same_inflight(*old(self), *final(self))
                &&& final(self).remote_window == old(self).remote_window
                &&& final(self).ack_number == old(self).ack_number
                &&& final(self).delay == old(self).delay
            },
    {
        if peer_is_ipv4 != self.local_is_ipv4 {
            return Err(UtpError::FamilyMismatch);
        }
        let mut header = Header::new(PacketType::Syn);
        header.connection_id = self.recv_id;
        header.seq_number = self.seq_number;
        header.window_size = DEFAULT_WINDOW;
        proof {
            lemma_seq_of_epoch_step(self.seq_epoch@);
        }
        self.seq_number = seq_add1(self.seq_number);
        proof {
            self.seq_epoch@ = self.seq_epoch@ + 1;
        }
        Ok(header)
    }

    /// Take the first handshake reply: latch the peer, enter `SynSent`,
    /// and dispatch the reply (a State packet completes the handshake).
    pub fn on_connect_reply(&mut self, source_is_ipv4: bool, packet: &Packet, now: u64) -> (r:
        Result<(), UtpError>)
        requires
            old(self).wf(),
            old(self).state == ConnState::Idle,
            old(self).delay_history.last_rollover <= now,
            now <= 0x4000_0000_0000_0000u64,
        ensures
            final(self).wf(),
            final(self).remote_is_ipv4 == Some(source_is_ipv4),
            dispatch_transition(
                (Connection {
                    state: ConnState::SynSent,
                    remote_is_ipv4: Some(source_is_ipv4),
                    ..*old(self)
                }),
                *final(self),
                packet.header,
                now,
                r,
            ),
    {
        self.remote_is_ipv4 = Some(source_is_ipv4);
        self.state = ConnState::SynSent;
        self.dispatch(packet, now)
    }

    /// Route one decoded packet by `(packet type, state)`; see
    /// `dispatch_transition` for the table.
    pub fn dispatch(&mut self, packet: &Packet, now: u64) -> (r: Result<(), UtpError>)
        requires
            old(self).wf(),
            old(self).delay_history.last_rollover <= now,
            now <= 0x4000_0000_0000_0000u64,
        ensures
            final(self).wf(),
            final(self).remote_is_ipv4 == old(self).remote_is_ipv4,
            dispatch_transition(*old(self), *final(self), packet.header, now, r),
    {
        let ts = packet.header.timestamp_micros;
        self.delay = if now >= ts {
            (now - ts) as i64
        } else {
            0
        };
        match (packet.header.packet_type, self.state) {
            (PacketType::Syn, ConnState::Idle) => {
                self.state = ConnState::Connected;
                let cid = packet.header.connection_id;
                self.recv_id = seq_add1(cid);
                self.send_id = cid;
                let seq = random_u16();
                proof {
                    lemma_small_mod(seq as nat, 0x10000nat);
                }
                self.seq_number = seq;
                proof {
                    self.seq_epoch@ = seq as int;
                }
                self.ack_number = packet.header.seq_number;
                Ok(())
            },
            (PacketType::State, ConnState::SynSent) => {
                self.state = ConnState::Connected;
                self.ack_number = seq_sub1(packet.header.seq_number);
                self.remote_window = packet.header.window_size as u64;
                Ok(())
            },
            (PacketType::State, ConnState::Connected) => {
                let h = packet.header;
                self.handle_state(&h, now)
            },
            (PacketType::Data, _) => {
                if self.state == ConnState::Connected && packet.header.seq_number == seq_add1(
                    self.ack_number,
                ) {
                    self.ack_number = packet.header.seq_number;
                }
                Ok(())
            },
            (PacketType::Reset, _) => {
                if self.state != ConnState::Idle {
                    self.state = ConnState::Idle;
                    self.inflight_packets.clear();
                    Err(UtpError::ConnectionReset)
                } else {
                    Ok(())
                }
            },
            _ => Ok(()),
        }
    }

    /// Acknowledgement processing in the data phase; see
    /// `ack_transition`.
    pub fn handle_state(&mut self, h: &Header, now: u64) -> (r: Result<(), UtpError>)
        requires
            old(self).wf(),
            old(self).state == ConnState::Connected,
            old(self).delay_history.last_rollover <= now,
            now <= 0x4000_0000_0000_0000u64,
        ensures
            final(self).wf(),
            final(self).delay == old(self).delay,
            final(self).remote_is_ipv4 == old(self).remote_is_ipv4,
            ack_transition(*old(self), *final(self), *h, now, r),
    {
        if !self.inflight_packets.contains_seq(h.ack_number) {
            return Err(UtpError::UnexpectedAck);
        }
        let idx = self.inflight_packets.index_of_seq(h.ack_number);
        let ts = self.inflight_packets.packets[idx].header.timestamp_micros;
        let rtt_raw: u64 = if now >= ts {
            now - ts
        } else {
            0
        };
        let rtt: u64 = if rtt_raw > 0xffff_ffff {
            0xffff_ffff
        } else {
            rtt_raw
        };
        let inflight_before = self.inflight_packets.inflight_size();
        let bytes_acked = self.inflight_packets.remove_acked(h.ack_number);
        proof {
            crate::inflight::lemma_covered_prefix_props(
                old(self).inflight_packets.packets@,
                h.ack_number,
            );
            crate::inflight::lemma_bytes_in_first_mono(
                old(self).inflight_packets.packets@,
                covered_prefix_len(old(self).inflight_packets.packets@, h.ack_number),
                old(self).inflight_packets.packets@.len() as int,
            );
        }
        if h.timestamp_diff_micros != 0 {
            self.delay_history.add_delay(h.timestamp_diff_micros as i64, now);
        }
        if self.delay_history.has_sample() {
            let base = self.delay_history.base_delay();
            if base != DELAY_INFINITY {
                let current = self.delay_history.current_delay();
                let queuing: i64 = current - base;
                self.cwnd = cwnd_after_ack(self.cwnd, queuing, bytes_acked, inflight_before);
            }
        }
        let (new_srtt, new_rttvar, new_timeout) = rto_after(self.srtt, self.rttvar, rtt);
        self.srtt = new_srtt;
        self.rttvar = new_rttvar;
        self.congestion_timeout = new_timeout;
        proof {
            let ghost k = covered_prefix_len(old(self).inflight_packets.packets@, h.ack_number);
            assert forall|i: int|
                0 <= i < self.inflight_packets.epochs@.len() implies (
            #[trigger] self.inflight_packets.epochs@[i]) < self.seq_epoch@ by {
                assert(self.inflight_packets.epochs@[i] == old(
                    self,
                ).inflight_packets.epochs@[k + i]);
            }
            if self.inflight_packets.epochs@.len() > 0 {
                assert(self.inflight_packets.epochs@[0] == old(
                    self,
                ).inflight_packets.epochs@[k]);
                if k > 0 {
                    assert(old(self).inflight_packets.epochs@[0] < old(
                        self,
                    ).inflight_packets.epochs@[k]);
                }
            }
        }
        Ok(())
    }

    /// Payload capacity of one data packet for this connection.
    pub fn packet_size(&self) -> (r: u64)
        ensures
            r == self.packet_size_spec(),
    {
        let is_ipv4 = match self.remote_is_ipv4 {
            Some(b) => b,
            None => true,
        };
        if is_ipv4 {
            UDP_IPV4_MTU - HEADER_SIZE
        } else {
            UDP_IPV6_MTU - HEADER_SIZE
        }
    }

    /// Bytes currently in flight.
    pub fn inflight_size(&self) -> (r: u64)
        requires
            self.wf(),
        ensures
            r == self.inflight_bytes(),
    {
        self.inflight_packets.inflight_size()
    }

    /// The admission gate of the send pipeline: may a packet of `size`
    /// bytes go out without overrunning the effective window?
    pub fn can_transmit(&self, size: u64) -> (r: bool)
        requires
            self.wf(),
            size <= 0x1_0000,
        ensures
            r == (size + self.inflight_bytes() <= self.effective_window()),
    {
        let window = if self.cwnd <= self.remote_window {
            self.cwnd
        } else {
            self.remote_window
        };
        let inflight = self.inflight_packets.inflight_size();
        size + inflight <= window
    }

    /// Stamp the next data packet and queue it as inflight; the caller
    /// transmits the returned header with the packet's payload. Requires
    /// the admission gate: afterwards the bytes in flight still fit the
    /// effective window.
    pub fn prepare_data_packet(&mut self, payload: Vec<u8>, now: u64) -> (h: Header)
        requires
            old(self).wf(),
            old(self).state == ConnState::Connected,
            old(self).sequence_room(),
            payload@.len() <= old(self).packet_size_spec(),
            HEADER_SIZE + payload@.len() + old(self).inflight_bytes() <= old(
                self,
            ).effective_window(),
        ensures
            final(self).wf(),
            h == (Header {
                packet_type: PacketType::Data,
                connection_id: old(self).send_id,
                seq_number: old(self).seq_number,
                ack_number: old(self).ack_number,
                window_size: DEFAULT_WINDOW,
                timestamp_micros: now,
                timestamp_diff_micros: 0,
            }),
            final(self).inflight_packets.packets@ == old(self).inflight_packets.packets@.push(
                (Packet { header: h, payload: payload }),
            ),
            final(self).seq_number == seq_add1_spec(old(self).seq_number),
            final(self).seq_epoch@ == old(self).seq_epoch@ + 1,
            final(self).inflight_bytes() == old(self).inflight_bytes() + HEADER_SIZE
                + payload@.len(),
            final(self).inflight_bytes() <= final(self).effective_window(),
            final(self).state == old(self).state,
            same_identity(*old(self), *final(self)),
            same_congestion(*old(self), *final(self)),
            final(self).remote_window == old(self).remote_window,
            final(self).ack_number == old(self).ack_number,
            final(self).delay == old(self).delay,
    {
        let h = Header {
            packet_type: PacketType::Data,
            connection_id: self.send_id,
            seq_number: self.seq_number,
            ack_number: self.ack_number,
            window_size: DEFAULT_WINDOW,
            timestamp_micros: now,
            timestamp_diff_micros: 0,
        };
        let ghost e = self.seq_epoch@;
        let p = Packet { header: h, payload };
        self.inflight_packets.push_packet(p, Ghost(e));
        proof {
            lemma_seq_of_epoch_step(e);
        }
        self.seq_number = seq_add1(self.seq_number);
        proof {
            self.seq_epoch@ = e + 1;
        }
        h
    }

    /// The exec form of `sequence_room`: read off the wrapped counters,
    /// which under the connection invariant agree with the unwrapped
    /// ones. It runs out only when acknowledgements stop arriving for
    /// nearly 2^15 consecutive transmissions.
    pub fn has_sequence_room(&self) -> (r: bool)
        requires
            self.wf(),
        ensures
            r == self.sequence_room(),
    {
        let n = self.inflight_packets.len();
        if n == 0 {
            return true;
        }
        let front_seq = self.inflight_packets.packets[0].header.seq_number;
        proof {
            lemma_dist_of_epochs(self.inflight_packets.epochs@[0], self.seq_epoch@);
        }
        let d: u32 = if self.seq_number >= front_seq {
            (self.seq_number - front_seq) as u32
        } else {
            (self.seq_number as u32) + 0x10000 - (front_seq as u32)
        };
        d < 0x7fff
    }

    /// Whether no packet with sequence number `n` is awaiting an
    /// acknowledgement.
    pub fn is_packet_acked(&self, n: u16) -> (r: bool)
        ensures
            r == !has_seq(self.inflight_packets.packets@, n),
    {
        !self.inflight_packets.contains_seq(n)
    }

    /// The sequence number of the most recently transmitted packet.
    pub fn last_sent_seq(&self) -> (r: u16)
        ensures
            r == seq_sub1_spec(self.seq_number),
    {
        seq_sub1(self.seq_number)
    }

    /// The loss response: halve the window, no lower than the floor,
    /// never raising it. The caller applies this at most once per
    /// round trip.
    pub fn on_data_loss(&mut self)
        requires
            old(self).wf(),
        ensures
            final(self).wf(),
            final(self).cwnd == cwnd_after_loss_spec(old(self).cwnd),
            old(self).cwnd >= cwnd_floor() ==> final(self).cwnd >= cwnd_floor(),
            *final(self) == (Connection { cwnd: final(self).cwnd, ..*old(self) }),
    {
        self.cwnd = cwnd_after_loss(self.cwnd);
    }

    /// The timeout-expiry response: collapse the window to one segment
    /// and double the congestion timeout. The unacknowledged packets
    /// stay queued for retransmission. The bound on the prior timeout
    /// only keeps the doubled value inside the range the backoff
    /// arithmetic works in (a machine limit, about 73 000 years).
    pub fn on_congestion_timeout_expired(&mut self)
        requires
            old(self).wf(),
            old(self).congestion_timeout < 0x2000_0000_0000_0000u64,
        ensures
            final(self).wf(),
            final(self).cwnd == MSS,
            final(self).congestion_timeout == 2 * old(self).congestion_timeout,
            *final(self) == (Connection {
                cwnd: final(self).cwnd,
                congestion_timeout: final(self).congestion_timeout,
                ..*old(self)
            }),
    {
        self.cwnd = MSS;
        self.congestion_timeout = 2 * self.congestion_timeout;
    }

    /// Wait duration of receive attempt `attempt` (0-based): the
    /// congestion timeout, doubling with each retry.
    pub fn recv_timeout_for_attempt(&self, attempt: usize) -> (r: u64)
        requires
            self.wf(),
            attempt < RECV_RETRIES,
        ensures
            r == backoff_spec(self.congestion_timeout, attempt as nat),
    {
        let t = self.congestion_timeout;
        if attempt == 0 {
            t
        } else if attempt == 1 {
            proof {
                assert(backoff_spec(t, 1) == 2 * backoff_spec(t, 0));
            }
            2 * t
        } else {
            proof {
                assert(backoff_spec(t, 2) == 2 * backoff_spec(t, 1));
                assert(backoff_spec(t, 1) == 2 * backoff_spec(t, 0));
            }
            4 * t
        }
    }

    /// Build a State (acknowledgement) header for the peer; the caller
    /// stamps and transmits it. Advances the sequence number like every
    /// transmitted packet.
    pub fn send_ack(&mut self) -> (h: Header)
        requires
            old(self).wf(),
            old(self).sequence_room(),
        ensures
            final(self).wf(),
            h == (Header {
                packet_type: PacketType::State,
                connection_id: old(self).send_id,
                seq_number: old(self).seq_number,
                ack_number: old(self).ack_number,
                window_size: 0,
                timestamp_micros: 0,
                timestamp_diff_micros: 0,
            }),
            final(self).seq_number == seq_add1_spec(old(self).seq_number),
            final(self).seq_epoch@ == old(self).seq_epoch@ + 1,
            *final(self) == (Connection {
                seq_number: final(self).seq_number,
                seq_epoch: final(self).seq_epoch,
                ..*old(self)
            }),
    {
        let mut header = Header::new(PacketType::State);
        header.connection_id = self.send_id;
        header.seq_number = self.seq_number;
        header.ack_number = self.ack_number;
        proof {
            lemma_seq_of_epoch_step(self.seq_epoch@);
        }
        self.seq_number = seq_add1(self.seq_number);
        proof {
            self.seq_epoch@ = self.seq_epoch@ + 1;
        }
        header
    }
}

} // verus!
