use amethyst_network::address::PeerAddr;
use amethyst_network::connection::{
    assemble_packet, ConnectionQuality, ConnectionState, NetConnection,
};
use amethyst_network::packet::datagram::{CompletePacket, Packet};
use amethyst_network::socket_state::{ReceiveError, SocketState};

fn addr_a() -> PeerAddr {
    PeerAddr::ipv4(127, 0, 0, 1, 45214)
}

fn addr_b() -> PeerAddr {
    PeerAddr::ipv4(127, 0, 0, 1, 45215)
}

fn header(seq: u16, ack_seq: u16, ack_field: u32, payload: &[u8]) -> Vec<u8> {
    CompletePacket { seq, ack_seq, ack_field, payload: payload.to_vec() }.serialized()
}

#[test]
fn new_connection_is_connecting_and_empty() {
    let mut c = NetConnection::<String>::new(addr_a());
    assert_eq!(c.seq_num, 0);
    assert!(c.dropped_packets.is_empty());
    assert!(c.waiting_packets.is_empty());
    assert_eq!((c.their_acks.last_seq, c.their_acks.field), (0, 0));
    assert_eq!(c.target, addr_a());
    assert!(c.send_buffer.is_empty());
    assert!(c.receive_buffer.is_empty());
    assert_eq!(c.state, ConnectionState::Connecting);
    assert_eq!(c.quality, ConnectionQuality::Good);
}

#[test]
fn send_buffer_is_drained_in_order() {
    let mut c = NetConnection::<u32>::new(addr_a());
    c.send_buffer.push(1);
    c.send_buffer.push(2);
    assert_eq!(c.send_buffer_early_read(), vec![1, 2]);
    assert!(c.send_buffer.is_empty());
    assert_eq!(c.send_buffer_early_read(), Vec::<u32>::new());
}

#[test]
fn assembled_packet_carries_the_acknowledgment() {
    let mut c = NetConnection::<u32>::new(addr_a());
    c.their_acks.ack(70);
    c.their_acks.ack(72);
    let packet = assemble_packet(5, Packet::new(addr_a(), vec![1, 2]), &c);
    assert_eq!(
        packet,
        CompletePacket { seq: 5, ack_seq: 72, ack_field: 0b10, payload: vec![1, 2] }
    );
}

#[test]
fn states_that_permit_sending() {
    assert!(ConnectionState::Connecting.can_send());
    assert!(ConnectionState::Connected.can_send());
    assert!(!ConnectionState::Disconnecting.can_send());
    assert!(!ConnectionState::Disconnected.can_send());
}

#[test]
fn preprocess_frames_and_counts() {
    let mut state = SocketState::<u32>::new();
    let (to, bytes) = state.preprocess_packet(Packet::new(addr_b(), vec![9]));
    assert_eq!(to, addr_b());
    assert_eq!(bytes, header(0, 0, 0, &[9]));
    let (_, bytes) = state.preprocess_packet(Packet::new(addr_b(), vec![8]));
    assert_eq!(bytes, header(1, 0, 0, &[8]));
    let c = state.connection(&addr_b()).unwrap();
    assert_eq!(c.seq_num, 2);
    assert!(c.waiting_packets.contains(0));
    assert!(c.waiting_packets.contains(1));
    assert!(!c.waiting_packets.contains(2));
    assert_eq!(state.peers(), vec![addr_b()]);
}

#[test]
fn sequence_number_wraps() {
    let mut state = SocketState::<u32>::new();
    for _ in 0..65535 {
        state.preprocess_packet(Packet::new(addr_b(), Vec::new()));
    }
    let (_, bytes) = state.preprocess_packet(Packet::new(addr_b(), Vec::new()));
    assert_eq!(bytes, header(65535, 0, 0, &[]));
    assert_eq!(state.connection(&addr_b()).unwrap().seq_num, 0);
    let (_, bytes) = state.preprocess_packet(Packet::new(addr_b(), Vec::new()));
    assert_eq!(bytes, header(0, 0, 0, &[]));
}

#[test]
fn each_peer_has_its_own_sequence() {
    let mut state = SocketState::<u32>::new();
    state.preprocess_packet(Packet::new(addr_a(), vec![1]));
    state.preprocess_packet(Packet::new(addr_a(), vec![2]));
    let (_, bytes) = state.preprocess_packet(Packet::new(addr_b(), vec![3]));
    assert_eq!(bytes, header(0, 0, 0, &[3]));
    assert_eq!(state.peers(), vec![addr_a(), addr_b()]);
    assert_eq!(state.connection(&addr_a()).unwrap().target, addr_a());
    assert_eq!(state.connection(&addr_b()).unwrap().target, addr_b());
}

#[test]
fn connect_registers_once() {
    let mut state = SocketState::<u32>::new();
    assert!(!state.contains(&addr_a()));
    assert!(state.connect(addr_a()));
    assert!(!state.connect(addr_a()));
    assert!(state.contains(&addr_a()));
    assert_eq!(state.state(&addr_a()), Some(ConnectionState::Connecting));
    assert_eq!(state.state(&addr_b()), None);
    assert_eq!(state.peers(), vec![addr_a()]);
}

#[test]
fn remove_takes_the_connection_out() {
    let mut state = SocketState::<u32>::new();
    state.connect(addr_a());
    state.connect(addr_b());
    state.queue_event(addr_a(), 5);
    let gone = state.remove(addr_a()).unwrap();
    assert_eq!(gone.target, addr_a());
    assert_eq!(gone.send_buffer, vec![5]);
    assert!(state.remove(addr_a()).is_none());
    assert_eq!(state.peers(), vec![addr_b()]);
    assert!(!state.contains(&addr_a()));
}

#[test]
fn set_state_needs_a_connection() {
    let mut state = SocketState::<u32>::new();
    assert!(!state.set_state(addr_a(), ConnectionState::Connected));
    assert!(!state.contains(&addr_a()));
    state.connect(addr_a());
    assert!(state.set_state(addr_a(), ConnectionState::Connected));
    assert_eq!(state.state(&addr_a()), Some(ConnectionState::Connected));
}

#[test]
fn recv_can_recv() {
    let mut send_sock = SocketState::<()>::new();
    let mut recv_sock = SocketState::<()>::new();
    recv_sock.connect(addr_a());
    let send_res = send_sock.send(Packet::new(addr_b(), vec![1, 2, 3]));
    assert_eq!(send_res.len(), 1);
    assert_eq!(send_res[0].0, addr_b());

    let packet = recv_sock.receive_bytes(addr_a(), send_res[0].1.clone());
    assert!(packet.is_ok());
    let unwrap_pkt = packet.unwrap();
    assert_eq!(unwrap_pkt.payload, vec![1, 2, 3]);
    assert_eq!(unwrap_pkt.addr, PeerAddr::ipv4(127, 0, 0, 1, 45214));
}

#[test]
fn receive_records_the_sequence_and_settles_the_report() {
    let mut state = SocketState::<u32>::new();
    state.preprocess_packet(Packet::new(addr_b(), vec![1]));
    state.preprocess_packet(Packet::new(addr_b(), vec![2]));
    let got = state.receive(
        addr_b(),
        CompletePacket { seq: 300, ack_seq: 1, ack_field: 0, payload: vec![7] },
    );
    assert_eq!(got, Some(Packet::new(addr_b(), vec![7])));
    let c = state.connection(&addr_b()).unwrap();
    assert_eq!((c.their_acks.last_seq, c.their_acks.field), (300, 0));
    assert!(c.waiting_packets.contains(0));
    assert!(!c.waiting_packets.contains(1));
    assert!(c.dropped_packets.is_empty());
    assert_eq!(c.seq_num, 2);
}

#[test]
fn datagram_from_an_unknown_address_is_dropped() {
    let mut state = SocketState::<u32>::new();
    state.connect(addr_a());
    state.queue_event(addr_a(), 1);
    state.deliver(addr_a(), Some(11));
    let got = state.receive_bytes(addr_b(), header(4, 0, 1, &[1, 2, 3]));
    assert_eq!(got, Err(ReceiveError::UnknownPeer));
    assert_eq!(
        state.receive(addr_b(), CompletePacket { seq: 1, ack_seq: 0, ack_field: 0, payload: vec![] }),
        None
    );
    assert!(!state.deliver(addr_b(), Some(12)));
    assert!(!state.contains(&addr_b()));
    assert_eq!(state.peers(), vec![addr_a()]);
    let c = state.connection(&addr_a()).unwrap();
    assert_eq!(c.receive_buffer, vec![11]);
    assert_eq!(c.send_buffer, vec![1]);
    assert_eq!((c.their_acks.last_seq, c.their_acks.field), (0, 0));
    assert_eq!(state.take_received(addr_b()), Vec::<u32>::new());
    assert!(!state.contains(&addr_b()));
}

#[test]
fn short_datagram_is_dropped_without_effect() {
    let mut state = SocketState::<u32>::new();
    state.connect(addr_a());
    assert_eq!(state.receive_bytes(addr_a(), vec![1, 2, 3, 4, 5, 6, 7]), Err(ReceiveError::TooShort));
    assert_eq!(state.receive_bytes(addr_b(), Vec::new()), Err(ReceiveError::TooShort));
    let c = state.connection(&addr_a()).unwrap();
    assert_eq!((c.their_acks.last_seq, c.their_acks.field), (0, 0));
    assert_eq!(c.seq_num, 0);
    state.receive_bytes(addr_a(), header(9, 0, 0, &[])).unwrap();
    assert_eq!(state.connection(&addr_a()).unwrap().their_acks.last_seq, 9);
}

#[test]
fn payload_that_did_not_decode_is_dropped() {
    let mut state = SocketState::<u32>::new();
    state.connect(addr_a());
    assert!(!state.deliver(addr_a(), None));
    assert!(state.connection(&addr_a()).unwrap().receive_buffer.is_empty());
    assert!(state.deliver(addr_a(), Some(1)));
    assert!(state.deliver(addr_a(), Some(2)));
    assert_eq!(state.take_received(addr_a()), vec![1, 2]);
    assert_eq!(state.take_received(addr_a()), Vec::<u32>::new());
}

#[test]
fn one_datagram_each_way_empties_the_window() {
    let mut a = SocketState::<u32>::new();
    let mut b = SocketState::<u32>::new();
    b.connect(addr_a());

    let out = a.send(Packet::new(addr_b(), vec![1]));
    assert_eq!(out, vec![(addr_b(), header(0, 0, 0, &[1]))]);
    assert_eq!(b.receive_bytes(addr_a(), out[0].1.clone()), Ok(Packet::new(addr_a(), vec![1])));

    let back = b.send(Packet::new(addr_a(), vec![2]));
    assert_eq!(back, vec![(addr_a(), header(0, 0, 0, &[2]))]);
    assert_eq!(a.receive_bytes(addr_b(), back[0].1.clone()), Ok(Packet::new(addr_b(), vec![2])));

    let mut c = a.remove(addr_b()).unwrap();
    assert!(c.waiting_packets.is_empty());
    assert_eq!(c.waiting_packets.len(), 0);
    assert!(c.dropped_packets.is_empty());
    assert_eq!(c.seq_num, 1);
}

#[test]
fn dropped_packets_ride_with_the_next_send() {
    let mut a = SocketState::<u32>::new();
    for k in 0u8..41 {
        let out = a.send(Packet::new(addr_b(), vec![k]));
        assert_eq!(out, vec![(addr_b(), header(k as u16, 0, 0, &[k]))]);
    }
    let got = a.receive(
        addr_b(),
        CompletePacket { seq: 0, ack_seq: 40, ack_field: 0, payload: Vec::new() },
    );
    assert_eq!(got, Some(Packet::new(addr_b(), Vec::new())));
    {
        let c = a.connection(&addr_b()).unwrap();
        let mut tags: Vec<u8> = c.dropped_packets.iter().map(|p| p.payload[0]).collect();
        tags.sort();
        assert_eq!(tags, vec![0, 1, 2, 3, 4, 5, 6, 7]);
        assert!(c.dropped_packets.iter().all(|p| p.addr == addr_b()));
        for k in 0u16..8 {
            assert!(!c.waiting_packets.contains(k));
        }
        for k in 8u16..40 {
            assert!(c.waiting_packets.contains(k));
        }
        assert!(!c.waiting_packets.contains(40));
    }

    let out = a.send(Packet::new(addr_b(), vec![100]));
    assert_eq!(out.len(), 9);
    let mut resent = Vec::new();
    for (i, (to, bytes)) in out.iter().enumerate() {
        assert_eq!(*to, addr_b());
        let packet = CompletePacket::deserialize(bytes.clone()).unwrap();
        assert_eq!(packet.seq, 41 + i as u16);
        assert_eq!((packet.ack_seq, packet.ack_field), (0, 0));
        resent.push(packet.payload[0]);
    }
    assert_eq!(resent[8], 100);
    resent.truncate(8);
    resent.sort();
    assert_eq!(resent, vec![0, 1, 2, 3, 4, 5, 6, 7]);

    let mut c = a.remove(addr_b()).unwrap();
    assert!(c.dropped_packets.is_empty());
    assert_eq!(c.waiting_packets.len(), 41);
    assert_eq!(c.seq_num, 50);
}

#[test]
fn a_later_report_replaces_the_dropped_list() {
    let mut a = SocketState::<u32>::new();
    for k in 0u8..40 {
        a.send(Packet::new(addr_b(), vec![k]));
    }
    a.receive(addr_b(), CompletePacket { seq: 0, ack_seq: 33, ack_field: 0, payload: vec![] });
    assert_eq!(a.connection(&addr_b()).unwrap().dropped_packets, vec![Packet::new(addr_b(), vec![0])]);
    a.receive(addr_b(), CompletePacket { seq: 1, ack_seq: 34, ack_field: 0, payload: vec![] });
    assert_eq!(a.connection(&addr_b()).unwrap().dropped_packets, vec![Packet::new(addr_b(), vec![1])]);
    assert_eq!(a.dropped_packets(addr_b()), vec![Packet::new(addr_b(), vec![1])]);
    assert!(a.dropped_packets(addr_b()).is_empty());
}

#[test]
fn dropped_packets_of_a_new_peer_registers_it() {
    let mut a = SocketState::<u32>::new();
    assert!(a.dropped_packets(addr_b()).is_empty());
    assert!(a.contains(&addr_b()));
}
