//! One peer's connection: its state, its buffers and its bookkeeping.

use crate::address::PeerAddr;
use crate::packet::ack_record::AckRecord;
use crate::packet::datagram::{CompletePacket, DatagramView, Packet, PacketView};
use crate::packet::external::{AckSummary, ExternalAcks};
use vstd::prelude::*;

verus! {

/// Whether the connection is good or bad. Advisory: nothing acts on it.
#[derive(Clone, Copy, Debug, PartialEq, Eq, Structural)]
pub enum ConnectionQuality {
    Good,
    Bad,
}

/// The state of the connection.
#[derive(Clone, Copy, Debug, PartialEq, Eq, Structural)]
pub enum ConnectionState {
    /// The connection is established.
    Connected,
    /// The connection is being established.
    Connecting,
    /// The connection is being dropped.
    Disconnecting,
    /// The connection has been dropped.
    Disconnected,
}

impl ConnectionState {
    /// Whether events queued on a connection in this state are sent.
    pub open spec fn permits_sending(self) -> bool {
        self == ConnectionState::Connected || self == ConnectionState::Connecting
    }

    /// Whether events queued on a connection in this state are sent.
    pub fn can_send(&self) -> (yes: bool)
        ensures
            yes == self.permits_sending(),
    {
        match self {
            ConnectionState::Connected => true,
            ConnectionState::Connecting => true,
            ConnectionState::Disconnecting => false,
            ConnectionState::Disconnected => false,
        }
    }
}

/// Mathematical model of a [`NetConnection`].
pub struct ConnectionView<E> {
    pub seq_num: u16,
    pub dropped_packets: Seq<PacketView>,
    pub waiting_packets: Map<u16, PacketView>,
    pub their_acks: AckSummary,
    pub target: PeerAddr,
    pub send_buffer: Seq<E>,
    pub receive_buffer: Seq<E>,
    pub state: ConnectionState,
    pub quality: ConnectionQuality,
}

/// The connection to `target` before anything has been sent or received.
pub open spec fn fresh_connection<E>(target: PeerAddr) -> ConnectionView<E> {
    ConnectionView {
        seq_num: 0,
        dropped_packets: Seq::empty(),
        waiting_packets: Map::empty(),
        their_acks: AckSummary { last_seq: 0, field: 0, initialized: false },
        target,
        send_buffer: Seq::empty(),
        receive_buffer: Seq::empty(),
        state: ConnectionState::Connecting,
        quality: ConnectionQuality::Good,
    }
}

/// The views of the packets of `packets`, in order.
pub open spec fn packet_views(packets: Seq<Packet>) -> Seq<PacketView> {
    Seq::new(packets.len(), |i: int| packets[i]@)
}

/// A network connection target data.
pub struct NetConnection<E> {
    /// The sequence number of the next packet to this peer.
    pub seq_num: u16,
    /// Packets to this peer that the last report gave up.
    pub dropped_packets: Vec<Packet>,
    /// Packets to this peer that wait for an acknowledgment.
    pub waiting_packets: AckRecord,
    /// What has been seen of the peer's own sequence numbers.
    pub their_acks: ExternalAcks,
    /// The remote address of this connection.
    pub target: PeerAddr,
    /// Events queued by the application and not yet handed on for sending.
    pub send_buffer: Vec<E>,
    /// Events received from this peer and not yet read by the application.
    pub receive_buffer: Vec<E>,
    /// The state of the connection.
    pub state: ConnectionState,
    /// The quality of the connection.
    pub quality: ConnectionQuality,
}

impl<E> View for NetConnection<E> {
    type V = ConnectionView<E>;

    open spec fn view(&self) -> ConnectionView<E> {
        ConnectionView {
            seq_num: self.seq_num,
            dropped_packets: packet_views(self.dropped_packets@),
            waiting_packets: self.waiting_packets@,
            their_acks: self.their_acks@,
            target: self.target,
            send_buffer: self.send_buffer@,
            receive_buffer: self.receive_buffer@,
            state: self.state,
            quality: self.quality,
        }
    }
}

impl<E> NetConnection<E> {
    pub fn new(target: PeerAddr) -> (connection: NetConnection<E>)
        ensures
            connection@ == fresh_connection::<E>(target),
    {
        let connection = NetConnection {
            seq_num: 0,
            dropped_packets: Vec::new(),
            waiting_packets: AckRecord::new(),
            their_acks: ExternalAcks::new(),
            target,
            send_buffer: Vec::new(),
            receive_buffer: Vec::new(),
            state: ConnectionState::Connecting,
            quality: ConnectionQuality::Good,
        };
        assert(connection@.dropped_packets =~= Seq::<PacketView>::empty());
        connection
    }

    /// Takes the events that the application has queued since the last
    /// call, in the order in which it queued them.
    pub fn send_buffer_early_read(&mut self) -> (events: Vec<E>)
        ensures
            events@ == old(self)@.send_buffer,
            final(self)@ == (ConnectionView { send_buffer: Seq::<E>::empty(), ..old(self)@ }),
    {
        let mut events: Vec<E> = Vec::new();
        events.append(&mut self.send_buffer);
        events
    }
}

/// Two connections are equal when they have the same target and are in the
/// same state.
impl<E> PartialEq for NetConnection<E> {
    fn eq(&self, other: &Self) -> (equal: bool) {
        self.target == other.target && self.state == other.state
    }
}

impl<E> vstd::std_specs::cmp::PartialEqSpecImpl for NetConnection<E> {
    open spec fn obeys_eq_spec() -> bool {
        true
    }

    open spec fn eq_spec(&self, other: &Self) -> bool {
        self.target == other.target && self.state == other.state
    }
}

impl<E> Eq for NetConnection<E> {

}

/// The datagram that carries `p` under sequence number `seq_num`, with the
/// acknowledgment of what `connection` has seen from its peer.
pub fn assemble_packet<E>(seq_num: u16, p: Packet, connection: &NetConnection<E>) -> (packet:
    CompletePacket)
    ensures
        packet@ == (DatagramView {
            seq: seq_num,
            ack_seq: connection@.their_acks.last_seq,
            ack_field: connection@.their_acks.field,
            payload: p@.payload,
        }),
{
    CompletePacket {
        seq: seq_num,
        ack_seq: connection.their_acks.last_seq(),
        ack_field: connection.their_acks.field(),
        payload: p.payload,
    }
}

} // verus!
