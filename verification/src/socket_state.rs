//! The registry of connections, one per peer address.

use crate::addr_map::AddrMap;
use crate::address::PeerAddr;
use crate::connection::{
    assemble_packet, fresh_connection, packet_views, ConnectionState, ConnectionView,
    NetConnection,
};
use crate::dispatch::{after_command, command_views, commands_for, InternalSocketEvent};
use crate::packet::ack_record::{lists_entries, with_fate, PacketFate};
use crate::packet::datagram::{
    decode_datagram, encode_datagram, CompletePacket, DatagramView, Packet, PacketView,
};
use crate::packet::external::ack_step;
use vstd::prelude::*;

verus! {

/// The bytes of the datagram that carries `p` over the connection `c`: the
/// connection's next sequence number, and what it has seen from its peer.
pub open spec fn framed<E>(c: ConnectionView<E>, p: PacketView) -> Seq<u8> {
    encode_datagram(
        DatagramView {
            seq: c.seq_num,
            ack_seq: c.their_acks.last_seq,
            ack_field: c.their_acks.field,
            payload: p.payload,
        },
    )
}

/// The sequence number after `seq`, wrapping.
pub open spec fn next_seq(seq: u16) -> u16 {
    if seq == u16::MAX {
        0
    } else {
        (seq + 1) as u16
    }
}

/// The connection `c` after `p` has been framed for sending: `p` waits for
/// its acknowledgment under the sequence number it went out with, and the
/// sequence number has moved on by one, wrapping.
pub open spec fn after_sending<E>(c: ConnectionView<E>, p: PacketView) -> ConnectionView<E> {
    ConnectionView {
        seq_num: next_seq(c.seq_num),
        waiting_packets: c.waiting_packets.insert(c.seq_num, p),
        ..c
    }
}

/// The packets of a list of entries, in order.
pub open spec fn entry_packets(list: Seq<(u16, Packet)>) -> Seq<PacketView> {
    Seq::new(list.len(), |i: int| list[i].1@)
}

/// `after` is the connection `before` once the datagram `d` from its peer
/// has been taken in: the datagram's sequence number is recorded, its
/// report settles the waiting packets, and the dropped packets are those
/// that the report gave up, each once, in some order.
pub open spec fn received<E>(
    before: ConnectionView<E>,
    after: ConnectionView<E>,
    d: DatagramView,
) -> bool {
    &&& after.their_acks == ack_step(before.their_acks, d.seq)
    &&& after.waiting_packets == with_fate(
        before.waiting_packets,
        d.ack_seq,
        d.ack_field,
        PacketFate::Pending,
    )
    &&& exists|list: Seq<(u16, Packet)>|
        lists_entries(
            list,
            with_fate(before.waiting_packets, d.ack_seq, d.ack_field, PacketFate::Dropped),
        ) && after.dropped_packets == #[trigger] entry_packets(list)
    &&& after.seq_num == before.seq_num
    &&& after.target == before.target
    &&& after.send_buffer == before.send_buffer
    &&& after.receive_buffer == before.receive_buffer
    &&& after.state == before.state
    &&& after.quality == before.quality
}

/// Why bytes from the transport were not taken in.
#[derive(Clone, Copy, Debug, PartialEq, Eq, Structural)]
pub enum ReceiveError {
    /// The bytes are too few to hold a header.
    TooShort,
    /// No connection is registered for the address they came from.
    UnknownPeer,
}

/// Mathematical model of a [`SocketState`]: the connections by address, and
/// the addresses in the order in which they were first referred to.
pub struct RegistryView<E> {
    pub connections: Map<PeerAddr, ConnectionView<E>>,
    pub peers: Seq<PeerAddr>,
}

impl<E> RegistryView<E> {
    /// The registry without any connection.
    pub open spec fn empty() -> RegistryView<E> {
        RegistryView { connections: Map::empty(), peers: Seq::empty() }
    }

    /// The registry after `addr` has been referred to: a peer not seen
    /// before gets a fresh connection, at the end of the peers.
    pub open spec fn with_peer(self, addr: PeerAddr) -> RegistryView<E> {
        if self.connections.contains_key(addr) {
            self
        } else {
            RegistryView {
                connections: self.connections.insert(addr, fresh_connection(addr)),
                peers: self.peers.push(addr),
            }
        }
    }

    /// The registry with `c` in place of the connection of `addr`.
    pub open spec fn with_connection(self, addr: PeerAddr, c: ConnectionView<E>) -> RegistryView<
        E,
    > {
        RegistryView { connections: self.connections.insert(addr, c), peers: self.peers }
    }

    /// The bytes of the datagram that carries `p` to its peer.
    pub open spec fn frame_for(self, p: PacketView) -> Seq<u8> {
        framed(self.with_peer(p.addr).connections[p.addr], p)
    }

    /// The registry after `p` has been framed for its peer.
    pub open spec fn after_frame(self, p: PacketView) -> RegistryView<E> {
        let r = self.with_peer(p.addr);
        r.with_connection(p.addr, after_sending(r.connections[p.addr], p))
    }

    /// The registry after the dropped packets of `addr` have been taken.
    pub open spec fn after_taking_dropped(self, addr: PeerAddr) -> RegistryView<E> {
        let r = self.with_peer(addr);
        r.with_connection(
            addr,
            ConnectionView { dropped_packets: Seq::empty(), ..r.connections[addr] },
        )
    }

    /// The registry after each of `packets` has been framed, in order.
    pub open spec fn after_frames(self, packets: Seq<PacketView>) -> RegistryView<E>
        decreases packets.len(),
    {
        if packets.len() == 0 {
            self
        } else {
            self.after_frames(packets.drop_last()).after_frame(packets.last())
        }
    }

    /// The datagrams that carry `packets`, each with its destination, in
    /// order, each framed after the ones before it.
    pub open spec fn frames_for(self, packets: Seq<PacketView>) -> Seq<(PeerAddr, Seq<u8>)>
        decreases packets.len(),
    {
        if packets.len() == 0 {
            Seq::empty()
        } else {
            let r = self.after_frames(packets.drop_last());
            self.frames_for(packets.drop_last()).push(
                (packets.last().addr, r.frame_for(packets.last())),
            )
        }
    }

    /// What is transmitted to send `p`: the packets to its peer that the
    /// last report gave up, then `p` itself.
    pub open spec fn transmissions_for(self, p: PacketView) -> Seq<(PeerAddr, Seq<u8>)> {
        self.after_taking_dropped(p.addr).frames_for(
            self.with_peer(p.addr).connections[p.addr].dropped_packets.push(p),
        )
    }

    /// `after` is this registry once the datagram `d` from the registered
    /// peer `addr` has been taken in: only that peer's connection changes.
    pub open spec fn takes_in(self, after: RegistryView<E>, addr: PeerAddr, d: DatagramView) -> bool {
        &&& after.peers == self.peers
        &&& after.connections.contains_key(addr)
        &&& after.connections == self.connections.insert(addr, after.connections[addr])
        &&& received(self.connections[addr], after.connections[addr], d)
    }

    /// The registry after `event` has been delivered to the connection of
    /// the registered peer `addr`: it is the last in the receive buffer.
    pub open spec fn after_delivery(self, addr: PeerAddr, event: E) -> RegistryView<E> {
        self.with_connection(
            addr,
            ConnectionView {
                receive_buffer: self.connections[addr].receive_buffer.push(event),
                ..self.connections[addr]
            },
        )
    }

    /// The registry after `p` has been sent.
    pub open spec fn after_send(self, p: PacketView) -> RegistryView<E> {
        self.after_taking_dropped(p.addr).after_frames(
            self.with_peer(p.addr).connections[p.addr].dropped_packets.push(p),
        )
    }
}

/// The datagrams of `list`, each with its destination.
pub open spec fn transmission_views(list: Seq<(PeerAddr, Vec<u8>)>) -> Seq<(PeerAddr, Seq<u8>)> {
    Seq::new(list.len(), |i: int| (list[i].0, list[i].1@))
}

/// Appending an element that a duplicate-free sequence lacks keeps it free of
/// duplicates, and adds that element to what it contains and nothing else.
proof fn lemma_push_fresh<A>(s: Seq<A>, a: A)
    requires
        s.no_duplicates(),
        !s.contains(a),
    ensures
        s.push(a).no_duplicates(),
        forall|x: A| s.push(a).contains(x) <==> s.contains(x) || x == a,
{
    assert forall|x: A| s.push(a).contains(x) <==> s.contains(x) || x == a by {
        if s.contains(x) {
            let i = choose|i: int| 0 <= i < s.len() && s[i] == x;
            assert(s.push(a)[i] == x);
        }
        if x == a {
            assert(s.push(a)[s.len() as int] == x);
        }
    }
}

/// Taking one element out of a duplicate-free sequence keeps it free of
/// duplicates, and takes that element from what it contains and nothing else.
proof fn lemma_remove_listed<A>(s: Seq<A>, i: int)
    requires
        s.no_duplicates(),
        0 <= i < s.len(),
    ensures
        s.remove(i).no_duplicates(),
        forall|x: A| s.remove(i).contains(x) <==> s.contains(x) && x != s[i],
{
    let r = s.remove(i);
    assert forall|x: A| r.contains(x) <==> s.contains(x) && x != s[i] by {
        if r.contains(x) {
            let j = choose|j: int| 0 <= j < r.len() && r[j] == x;
            if j < i {
                assert(s[j] == x);
            } else {
                assert(s[j + 1] == x);
            }
        }
        if s.contains(x) && x != s[i] {
            let j = choose|j: int| 0 <= j < s.len() && s[j] == x;
            if j < i {
                assert(r[j] == x);
            } else {
                assert(r[j - 1] == x);
            }
        }
    }
}

/// The packets of a list of entries, in order.
fn packets_of(list: Vec<(u16, Packet)>) -> (packets: Vec<Packet>)
    ensures
        packet_views(packets@) == entry_packets(list@),
{
    let mut list = list;
    let ghost entries = list@;
    let mut reversed: Vec<Packet> = Vec::new();
    while list.len() > 0
        invariant
            list@.len() + reversed@.len() == entries.len(),
            list@ == entries.take(list@.len() as int),
            forall|i: int|
                0 <= i < reversed@.len() ==> (#[trigger] reversed@[i])@ == entries[entries.len() - 1
                    - i].1@,
        decreases list@.len(),
    {
        let entry = list.pop().unwrap();
        reversed.push(entry.1);
    }
    let mut packets: Vec<Packet> = Vec::new();
    while reversed.len() > 0
        invariant
            reversed@.len() + packets@.len() == entries.len(),
            forall|i: int|
                0 <= i < reversed@.len() ==> (#[trigger] reversed@[i])@ == entries[entries.len() - 1
                    - i].1@,
            forall|i: int| 0 <= i < packets@.len() ==> (#[trigger] packets@[i])@ == entries[i].1@,
        decreases reversed@.len(),
    {
        let packet = reversed.pop().unwrap();
        packets.push(packet);
    }
    assert(packet_views(packets@) =~= entry_packets(entries));
    packets
}

/// The connections of this side, by the address of the peer.
pub struct SocketState<E> {
    connections: AddrMap<NetConnection<E>>,
    order: Vec<PeerAddr>,
}

impl<E> View for SocketState<E> {
    type V = RegistryView<E>;

    closed spec fn view(&self) -> RegistryView<E> {
        RegistryView {
            connections: Map::new(
                |a: PeerAddr| self.connections@.contains_key(a),
                |a: PeerAddr| self.connections@[a]@,
            ),
            peers: self.order@,
        }
    }
}

impl<E> SocketState<E> {
    /// The registry is well formed: every connection is listed once among
    /// the peers, under the address that it targets.
    pub closed spec fn wf(&self) -> bool {
        &&& self.order@.no_duplicates()
        &&& forall|a: PeerAddr|
            #![trigger self.order@.contains(a)]
            #![trigger self.connections@.contains_key(a)]
            self.order@.contains(a) <==> self.connections@.contains_key(a)
        &&& forall|a: PeerAddr| #[trigger]
            self.connections@.contains_key(a) ==> self.connections@[a].target == a
    }

    /// In a well-formed registry the peers are the addresses that have a
    /// connection, each once, and each connection targets its own address.
    pub proof fn lemma_peers_are_connections(&self)
        requires
            self.wf(),
        ensures
            self@.peers.no_duplicates(),
            forall|a: PeerAddr| self@.peers.contains(a) <==> self@.connections.contains_key(a),
            forall|a: PeerAddr| #[trigger]
                self@.connections.contains_key(a) ==> self@.connections[a].target == a,
    {
    }

    pub fn new() -> (state: SocketState<E>)
        ensures
            state.wf(),
            state@ == RegistryView::<E>::empty(),
    {
        let state = SocketState { connections: AddrMap::new(), order: Vec::new() };
        assert(state@.connections =~= Map::<PeerAddr, ConnectionView<E>>::empty());
        state
    }

    /// Whether a connection is registered for `addr`.
    pub fn contains(&self, addr: &PeerAddr) -> (found: bool)
        ensures
            found == self@.connections.contains_key(*addr),
    {
        self.connections.contains_key(addr)
    }

    /// The connection registered for `addr`, if there is one.
    pub fn connection(&self, addr: &PeerAddr) -> (connection: Option<&NetConnection<E>>)
        ensures
            match connection {
                Some(c) => self@.connections.contains_key(*addr) && c@ == self@.connections[*addr],
                None => !self@.connections.contains_key(*addr),
            },
    {
        self.connections.get(addr)
    }

    /// The state of the connection registered for `addr`, if there is one.
    pub fn state(&self, addr: &PeerAddr) -> (state: Option<ConnectionState>)
        ensures
            state == if self@.connections.contains_key(*addr) {
                Some(self@.connections[*addr].state)
            } else {
                None::<ConnectionState>
            },
    {
        match self.connections.get(addr) {
            Some(c) => Some(c.state),
            None => None,
        }
    }

    /// The addresses of the registered peers, in the order in which they
    /// were first referred to.
    pub fn peers(&self) -> (peers: Vec<PeerAddr>)
        ensures
            peers@ == self@.peers,
    {
        let mut peers: Vec<PeerAddr> = Vec::new();
        let mut i: usize = 0;
        while i < self.order.len()
            invariant
                i <= self.order@.len(),
                peers@ == self.order@.take(i as int),
            decreases self.order@.len() - i,
        {
            peers.push(self.order[i]);
            assert(peers@ =~= self.order@.take(i + 1));
            i += 1;
        }
        assert(self.order@.take(i as int) =~= self.order@);
        peers
    }

    /// Registers a connection for `addr`, unless it has one. Returns whether
    /// the connection is new.
    pub fn connect(&mut self, addr: PeerAddr) -> (created: bool)
        requires
            old(self).wf(),
        ensures
            final(self).wf(),
            created == !old(self)@.connections.contains_key(addr),
            final(self)@ == old(self)@.with_peer(addr),
    {
        let created = !self.connections.contains_key(&addr);
        let connection = self.take_or_new(addr);
        self.put_back(addr, connection);
        proof {
            assert(self@.connections =~= old(self)@.with_peer(addr).connections);
        }
        created
    }

    /// Queues `event` for sending to `addr`. A peer not seen before gets a
    /// connection.
    pub fn queue_event(&mut self, addr: PeerAddr, event: E)
        requires
            old(self).wf(),
        ensures
            final(self).wf(),
            final(self)@ == old(self)@.with_peer(addr).with_connection(
                addr,
                ConnectionView {
                    send_buffer: old(self)@.with_peer(addr).connections[addr].send_buffer.push(
                        event,
                    ),
                    ..old(self)@.with_peer(addr).connections[addr]
                },
            ),
    {
        let mut connection = self.take_or_new(addr);
        connection.send_buffer.push(event);
        self.put_back(addr, connection);
        proof {
            let r = old(self)@.with_peer(addr);
            assert(self@.connections =~= r.with_connection(
                addr,
                ConnectionView {
                    send_buffer: r.connections[addr].send_buffer.push(event),
                    ..r.connections[addr]
                },
            ).connections);
        }
    }

    /// Takes the events received from `addr` that the application has not
    /// read yet, in the order in which they arrived. Nothing is taken, and
    /// nothing changes, where `addr` has no connection.
    pub fn take_received(&mut self, addr: PeerAddr) -> (events: Vec<E>)
        requires
            old(self).wf(),
        ensures
            final(self).wf(),
            events@ == if old(self)@.connections.contains_key(addr) {
                old(self)@.connections[addr].receive_buffer
            } else {
                Seq::<E>::empty()
            },
            final(self)@ == if old(self)@.connections.contains_key(addr) {
                old(self)@.with_connection(
                    addr,
                    ConnectionView {
                        receive_buffer: Seq::<E>::empty(),
                        ..old(self)@.connections[addr]
                    },
                )
            } else {
                old(self)@
            },
    {
        let mut events: Vec<E> = Vec::new();
        if !self.connections.contains_key(&addr) {
            return events;
        }
        let mut connection = self.take_or_new(addr);
        events.append(&mut connection.receive_buffer);
        self.put_back(addr, connection);
        proof {
            assert(self@.connections =~= old(self)@.with_connection(
                addr,
                ConnectionView {
                    receive_buffer: Seq::<E>::empty(),
                    ..old(self)@.connections[addr]
                },
            ).connections);
        }
        events
    }

    /// Puts the connection of `addr` into the state `state`. Returns whether
    /// `addr` has a connection; nothing changes where it has none.
    pub fn set_state(&mut self, addr: PeerAddr, state: ConnectionState) -> (found: bool)
        requires
            old(self).wf(),
        ensures
            final(self).wf(),
            found == old(self)@.connections.contains_key(addr),
            final(self)@ == if found {
                old(self)@.with_connection(
                    addr,
                    ConnectionView { state, ..old(self)@.connections[addr] },
                )
            } else {
                old(self)@
            },
    {
        if !self.connections.contains_key(&addr) {
            return false;
        }
        let mut connection = self.take_or_new(addr);
        connection.state = state;
        self.put_back(addr, connection);
        proof {
            assert(self@.connections =~= old(self)@.with_connection(
                addr,
                ConnectionView { state, ..old(self)@.connections[addr] },
            ).connections);
        }
        true
    }

    /// Takes the connection of `addr` out of the registry, if it has one.
    pub fn remove(&mut self, addr: PeerAddr) -> (connection: Option<NetConnection<E>>)
        requires
            old(self).wf(),
        ensures
            final(self).wf(),
            final(self)@.connections == old(self)@.connections.remove(addr),
            match connection {
                Some(c) => old(self)@.connections.contains_key(addr) && c@ == old(self)@.connections[addr],
                None => !old(self)@.connections.contains_key(addr) && final(self)@ == old(self)@,
            },
            forall|i: int|
                0 <= i < old(self)@.peers.len() && old(self)@.peers[i] == addr ==> final(self)@.peers == old(self)@.peers.remove(i),
    {
        match self.connections.remove(&addr) {
            None => {
                proof {
                    assert(self@.connections =~= old(self)@.connections);
                    assert forall|i: int| 0 <= i < self.order@.len() implies self.order@[i]
                        != addr by {
                        assert(self.order@.contains(self.order@[i]));
                    }
                }
                None
            },
            Some(connection) => {
                let mut i: usize = 0;
                proof {
                    assert(self.order@.contains(addr));
                }
                while i < self.order.len() && self.order[i] != addr
                    invariant
                        i <= self.order@.len(),
                        self.order@ == old(self).order@,
                        self.order@.contains(addr),
                        forall|j: int| 0 <= j < i ==> self.order@[j] != addr,
                    decreases self.order@.len() - i,
                {
                    i += 1;
                }
                proof {
                    if i == self.order@.len() {
                        let j = choose|j: int| 0 <= j < self.order@.len() && self.order@[j] == addr;
                        assert(false);
                    }
                    lemma_remove_listed(self.order@, i as int);
                }
                self.order.remove(i);
                proof {
                    assert(self@.connections =~= old(self)@.connections.remove(addr));
                }
                Some(connection)
            },
        }
    }

    /// Takes the connection of `addr` out of the table, or makes a fresh one
    /// and lists its peer.
    fn take_or_new(&mut self, addr: PeerAddr) -> (connection: NetConnection<E>)
        requires
            old(self).wf(),
        ensures
            connection@ == old(self)@.with_peer(addr).connections[addr],
            connection.target == addr,
            final(self).connections@ == old(self).connections@.remove(addr),
            final(self).order@ == old(self)@.with_peer(addr).peers,
            final(self).holds_all_but(addr),
    {
        match self.connections.remove(&addr) {
            Some(c) => c,
            None => {
                self.order.push(addr);
                proof {
                    lemma_push_fresh(old(self).order@, addr);
                }
                NetConnection::new(addr)
            },
        }
    }

    /// The registry is well formed but for the connection of `addr`, which
    /// is listed among the peers and missing from the table.
    spec fn holds_all_but(&self, addr: PeerAddr) -> bool {
        &&& self.order@.no_duplicates()
        &&& !self.connections@.contains_key(addr)
        &&& forall|a: PeerAddr|
            #![trigger self.order@.contains(a)]
            #![trigger self.connections@.contains_key(a)]
            self.order@.contains(a) <==> self.connections@.contains_key(a) || a == addr
        &&& forall|a: PeerAddr| #[trigger]
            self.connections@.contains_key(a) ==> self.connections@[a].target == a
    }

    /// Puts the connection of `addr` back into the table.
    fn put_back(&mut self, addr: PeerAddr, connection: NetConnection<E>)
        requires
            old(self).holds_all_but(addr),
            connection.target == addr,
        ensures
            final(self).wf(),
            final(self)@.peers == old(self).order@,
            final(self)@.connections == Map::new(
                |a: PeerAddr| old(self).connections@.contains_key(a),
                |a: PeerAddr| old(self).connections@[a]@,
            ).insert(addr, connection@),
    {
        self.connections.insert(addr, connection);
        assert(self@.connections =~= Map::new(
            |a: PeerAddr| old(self).connections@.contains_key(a),
            |a: PeerAddr| old(self).connections@[a]@,
        ).insert(addr, connection@));
    }

    /// Frames `p` for its peer: the packet is kept until it is acknowledged,
    /// and the datagram to transmit is returned with its destination. A peer
    /// not seen before gets a connection.
    pub fn preprocess_packet(&mut self, p: Packet) -> (out: (PeerAddr, Vec<u8>))
        requires
            old(self).wf(),
        ensures
            final(self).wf(),
            final(self)@ == old(self)@.after_frame(p@),
            out.0 == p.addr,
            out.1@ == old(self)@.frame_for(p@),
    {
        let addr = p.addr;
        let mut connection = self.take_or_new(addr);
        connection.waiting_packets.enqueue(connection.seq_num, p.clone());
        let final_packet = assemble_packet(connection.seq_num, p, &connection);
        connection.seq_num = connection.seq_num.wrapping_add(1);
        self.put_back(addr, connection);
        proof {
            assert(self@.connections =~= old(self)@.after_frame(p@).connections);
        }
        (addr, final_packet.serialized())
    }

    /// Takes the packets to `addr` that the last report from that peer gave
    /// up. A peer not seen before gets a connection.
    pub fn dropped_packets(&mut self, addr: PeerAddr) -> (packets: Vec<Packet>)
        requires
            old(self).wf(),
        ensures
            final(self).wf(),
            final(self)@ == old(self)@.after_taking_dropped(addr),
            packet_views(packets@) == old(self)@.with_peer(addr).connections[addr].dropped_packets,
    {
        let mut connection = self.take_or_new(addr);
        let mut packets: Vec<Packet> = Vec::new();
        packets.append(&mut connection.dropped_packets);
        proof {
            assert(packet_views(connection.dropped_packets@) =~= Seq::<PacketView>::empty());
        }
        self.put_back(addr, connection);
        proof {
            assert(self@.connections =~= old(self)@.after_taking_dropped(addr).connections);
        }
        packets
    }

    /// Takes in the datagram `packet` that came from `addr`, and returns its
    /// payload. A datagram from an address without a connection is dropped:
    /// nothing changes and nothing is returned.
    pub fn receive(&mut self, addr: PeerAddr, packet: CompletePacket) -> (payload: Option<Packet>)
        requires
            old(self).wf(),
        ensures
            final(self).wf(),
            final(self)@.peers == old(self)@.peers,
            !old(self)@.connections.contains_key(addr) ==> payload is None && final(self)@ == old(self)@,
            old(self)@.connections.contains_key(addr) ==> {
                &&& payload is Some
                &&& payload->Some_0@ == (PacketView { addr, payload: packet@.payload })
                &&& old(self)@.takes_in(final(self)@, addr, packet@)
            },
    {
        if !self.connections.contains_key(&addr) {
            return None;
        }
        let mut connection = self.take_or_new(addr);
        let ghost before = connection@;
        connection.their_acks.ack(packet.seq);
        let dropped = connection.waiting_packets.ack(packet.ack_seq, packet.ack_field);
        let ghost list = dropped@;
        connection.dropped_packets = packets_of(dropped);
        proof {
            assert(connection@.dropped_packets == entry_packets(list));
            assert(received(before, connection@, packet@));
        }
        self.put_back(addr, connection);
        proof {
            assert(self@.connections =~= old(self)@.connections.insert(
                addr,
                self@.connections[addr],
            ));
        }
        Some(Packet { addr, payload: packet.payload })
    }

    /// Sends `p`: first the packets to its peer that the last report gave
    /// up are framed again, each under a new sequence number, then `p`
    /// itself. Returns the datagrams to transmit, in order, each with its
    /// destination.
    pub fn send(&mut self, p: Packet) -> (out: Vec<(PeerAddr, Vec<u8>)>)
        requires
            old(self).wf(),
        ensures
            final(self).wf(),
            final(self)@ == old(self)@.after_send(p@),
            transmission_views(out@) == old(self)@.transmissions_for(p@),
    {
        let dropped = self.dropped_packets(p.addr);
        let ghost start = self@;
        let ghost packets = packet_views(dropped@);
        let mut out: Vec<(PeerAddr, Vec<u8>)> = Vec::new();
        let mut i: usize = 0;
        proof {
            assert(packets.take(0) =~= Seq::<PacketView>::empty());
            assert(transmission_views(out@) =~= start.frames_for(packets.take(0)));
        }
        while i < dropped.len()
            invariant
                i <= dropped@.len(),
                packets == packet_views(dropped@),
                self.wf(),
                self@ == start.after_frames(packets.take(i as int)),
                transmission_views(out@) == start.frames_for(packets.take(i as int)),
            decreases dropped@.len() - i,
        {
            let packet = dropped[i].clone();
            let ghost before = out@;
            let datagram = self.preprocess_packet(packet);
            out.push(datagram);
            proof {
                let next = packets.take(i + 1);
                assert(next.drop_last() =~= packets.take(i as int));
                assert(next.last() == packets[i as int]);
                assert(transmission_views(out@) =~= transmission_views(before).push(
                    (datagram.0, datagram.1@),
                ));
            }
            i += 1;
        }
        let ghost before = out@;
        let datagram = self.preprocess_packet(p);
        out.push(datagram);
        proof {
            assert(packets.take(i as int) =~= packets);
            let all = packets.push(p@);
            assert(all.drop_last() =~= packets);
            assert(all.last() == p@);
            assert(transmission_views(out@) =~= transmission_views(before).push(
                (datagram.0, datagram.1@),
            ));
        }
        out
    }

    /// Takes in the bytes of a datagram that came from `addr`, and returns
    /// its payload. Bytes too few to hold a header, and bytes from an address
    /// without a connection, are dropped: nothing changes.
    pub fn receive_bytes(&mut self, addr: PeerAddr, bytes: Vec<u8>) -> (payload: Result<
        Packet,
        ReceiveError,
    >)
        requires
            old(self).wf(),
        ensures
            final(self).wf(),
            match decode_datagram(bytes@) {
                None => payload == Err::<Packet, ReceiveError>(ReceiveError::TooShort) && final(self)@ == old(self)@,
                Some(d) => if old(self)@.connections.contains_key(addr) {
                    &&& payload is Ok
                    &&& payload->Ok_0@ == (PacketView { addr, payload: d.payload })
                    &&& old(self)@.takes_in(final(self)@, addr, d)
                } else {
                    payload == Err::<Packet, ReceiveError>(ReceiveError::UnknownPeer) && final(self)@ == old(self)@
                },
            },
    {
        match CompletePacket::deserialize(bytes) {
            Err(_) => Err(ReceiveError::TooShort),
            Ok(packet) => match self.receive(addr, packet) {
                Some(payload) => Ok(payload),
                None => Err(ReceiveError::UnknownPeer),
            },
        }
    }

    /// What one tick asks of the worker: for each connection, in the order
    /// of the peers, the command that its state calls for. Events handed on
    /// leave their send buffer.
    pub fn outgoing_commands(&mut self) -> (commands: Vec<InternalSocketEvent<E>>)
        requires
            old(self).wf(),
        ensures
            final(self).wf(),
            final(self)@.peers == old(self)@.peers,
            final(self)@.connections == Map::new(
                |a: PeerAddr| old(self)@.connections.contains_key(a),
                |a: PeerAddr| after_command(old(self)@.connections[a]),
            ),
            command_views(commands@) == commands_for(old(self)@.connections, old(self)@.peers),
    {
        let ghost start = self@;
        let mut commands: Vec<InternalSocketEvent<E>> = Vec::new();
        let mut i: usize = 0;
        proof {
            assert(start.peers.take(0) =~= Seq::<PeerAddr>::empty());
            assert(command_views(commands@) =~= commands_for(
                start.connections,
                start.peers.take(0),
            ));
        }
        while i < self.order.len()
            invariant
                i <= start.peers.len(),
                self.wf(),
                self@.peers == start.peers,
                forall|a: PeerAddr|
                    self@.connections.contains_key(a) <==> start.connections.contains_key(a),
                forall|j: int|
                    0 <= j < i ==> self@.connections[#[trigger] start.peers[j]] == after_command(
                        start.connections[start.peers[j]],
                    ),
                forall|j: int|
                    i <= j < start.peers.len() ==> self@.connections[#[trigger] start.peers[j]]
                        == start.connections[start.peers[j]],
                command_views(commands@) == commands_for(
                    start.connections,
                    start.peers.take(i as int),
                ),
            decreases start.peers.len() - i,
        {
            let addr = self.order[i];
            let ghost before = self@;
            let ghost listed = commands@;
            proof {
                assert(self.order@.contains(addr));
            }
            let mut connection = self.take_or_new(addr);
            let command = connection.next_command();
            self.put_back(addr, connection);
            match command {
                Some(c) => {
                    commands.push(c);
                    proof {
                        assert(command_views(commands@) =~= command_views(listed).push(c@));
                    }
                },
                None => {},
            }
            proof {
                assert(self@.connections =~= before.connections.insert(
                    addr,
                    after_command(before.connections[addr]),
                ));
                let next = start.peers.take(i + 1);
                assert(next.drop_last() =~= start.peers.take(i as int));
                assert(next.last() == addr);
                assert forall|j: int| 0 <= j < start.peers.len() && j != i implies start.peers[j]
                    != addr by {}
            }
            i += 1;
        }
        proof {
            assert(start.peers.take(i as int) =~= start.peers);
            assert(self@.connections =~= Map::new(
                |a: PeerAddr| start.connections.contains_key(a),
                |a: PeerAddr| after_command(start.connections[a]),
            )) by {
                assert forall|a: PeerAddr| start.connections.contains_key(a) implies self@.connections[a]
                    == after_command(start.connections[a]) by {
                    assert(old(self).order@.contains(a));
                    let j = choose|j: int| 0 <= j < start.peers.len() && start.peers[j] == a;
                    assert(start.peers[j] == a);
                }
            }
        }
        commands
    }

    /// Hands the outcome of decoding a payload from `addr` to the receive
    /// buffer of that peer's connection. A payload that did not decode, and
    /// one from an address without a connection, is dropped: nothing
    /// changes. Returns whether the event was delivered.
    pub fn deliver(&mut self, addr: PeerAddr, decoded: Option<E>) -> (delivered: bool)
        requires
            old(self).wf(),
        ensures
            final(self).wf(),
            delivered == (decoded is Some && old(self)@.connections.contains_key(addr)),
            final(self)@ == if delivered {
                old(self)@.after_delivery(addr, decoded->Some_0)
            } else {
                old(self)@
            },
    {
        match decoded {
            None => false,
            Some(event) => {
                if !self.connections.contains_key(&addr) {
                    return false;
                }
                let mut connection = self.take_or_new(addr);
                connection.receive_buffer.push(event);
                self.put_back(addr, connection);
                proof {
                    assert(self@.connections =~= old(self)@.after_delivery(
                        addr,
                        event,
                    ).connections);
                }
                true
            },
        }
    }
}

} // verus!
