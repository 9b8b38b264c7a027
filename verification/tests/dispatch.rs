use amethyst_network::address::PeerAddr;
use amethyst_network::connection::{ConnectionState, NetConnection};
use amethyst_network::dispatch::InternalSocketEvent;
use amethyst_network::packet::datagram::CompletePacket;
use amethyst_network::socket_state::SocketState;

fn client_addr() -> PeerAddr {
    PeerAddr::ipv4(127, 0, 0, 1, 21201)
}

fn server_addr() -> PeerAddr {
    PeerAddr::ipv4(127, 0, 0, 1, 21200)
}

fn encode(event: &String) -> Vec<u8> {
    event.as_bytes().to_vec()
}

fn decode(bytes: &[u8]) -> Option<String> {
    String::from_utf8(bytes.to_vec()).ok()
}

fn encoded(command: InternalSocketEvent<String>) -> InternalSocketEvent<Vec<u8>> {
    match command {
        InternalSocketEvent::SendEvents { target, events } => InternalSocketEvent::SendEvents {
            target,
            events: events.iter().map(encode).collect(),
        },
        InternalSocketEvent::Stop => InternalSocketEvent::Stop,
    }
}

fn tick(
    tick_side: &mut SocketState<String>,
    worker_side: &mut SocketState<String>,
) -> Vec<(PeerAddr, Vec<u8>)> {
    let commands: Vec<InternalSocketEvent<Vec<u8>>> =
        tick_side.outgoing_commands().into_iter().map(encoded).collect();
    worker_side.run_commands(commands).transmissions
}

fn take_in(
    worker_side: &mut SocketState<String>,
    tick_side: &mut SocketState<String>,
    from: PeerAddr,
    datagrams: Vec<(PeerAddr, Vec<u8>)>,
) {
    for (_, bytes) in datagrams {
        if let Ok(packet) = worker_side.receive_bytes(from, bytes) {
            tick_side.deliver(packet.addr, decode(&packet.payload));
        }
    }
}

fn send_command(events: Vec<Vec<u8>>) -> InternalSocketEvent<Vec<u8>> {
    InternalSocketEvent::SendEvents { target: server_addr(), events }
}

fn is_send(command: &InternalSocketEvent<String>, to: PeerAddr, what: &[&str]) -> bool {
    match command {
        InternalSocketEvent::SendEvents { target, events } => {
            *target == to && events.iter().map(|e| e.as_str()).collect::<Vec<_>>() == what
        }
        InternalSocketEvent::Stop => false,
    }
}

#[test]
fn command_follows_the_state() {
    let mut c = NetConnection::<String>::new(server_addr());
    c.send_buffer.push("a".to_string());
    let command = c.next_command().unwrap();
    assert!(is_send(&command, server_addr(), &["a"]));
    assert!(c.send_buffer.is_empty());

    c.state = ConnectionState::Connected;
    c.send_buffer.push("b".to_string());
    assert!(is_send(&c.next_command().unwrap(), server_addr(), &["b"]));

    c.state = ConnectionState::Disconnecting;
    c.send_buffer.push("c".to_string());
    assert!(c.next_command().is_none());
    assert_eq!(c.send_buffer, vec!["c".to_string()]);

    c.state = ConnectionState::Disconnected;
    assert!(matches!(c.next_command(), Some(InternalSocketEvent::Stop)));
    assert_eq!(c.send_buffer, vec!["c".to_string()]);
}

#[test]
fn a_tick_without_events_still_asks_to_send() {
    let mut c = NetConnection::<String>::new(server_addr());
    assert!(is_send(&c.next_command().unwrap(), server_addr(), &[]));
}

#[test]
fn commands_come_in_the_order_of_the_peers() {
    let mut state = SocketState::<String>::new();
    let third = PeerAddr::ipv4(10, 0, 0, 3, 1);
    let fourth = PeerAddr::ipv4(10, 0, 0, 4, 1);
    state.queue_event(server_addr(), "x".to_string());
    state.queue_event(client_addr(), "y".to_string());
    state.queue_event(server_addr(), "z".to_string());
    state.queue_event(third, "w".to_string());
    state.connect(fourth);
    state.set_state(client_addr(), ConnectionState::Disconnecting);
    state.set_state(third, ConnectionState::Disconnected);
    let commands = state.outgoing_commands();
    assert_eq!(commands.len(), 3);
    assert!(is_send(&commands[0], server_addr(), &["x", "z"]));
    assert!(matches!(commands[1], InternalSocketEvent::Stop));
    assert!(is_send(&commands[2], fourth, &[]));
    assert!(state.connection(&server_addr()).unwrap().send_buffer.is_empty());
    assert_eq!(state.connection(&client_addr()).unwrap().send_buffer, vec!["y".to_string()]);
    assert_eq!(state.connection(&third).unwrap().send_buffer, vec!["w".to_string()]);
    assert_eq!(state.peers(), vec![server_addr(), client_addr(), third, fourth]);
}

#[test]
fn stop_after_three_send_commands_lets_all_three_out() {
    let mut worker = SocketState::<String>::new();
    let commands = vec![
        send_command(vec![vec![1]]),
        send_command(vec![vec![2]]),
        send_command(vec![vec![3]]),
        InternalSocketEvent::Stop,
    ];
    let batch = worker.run_commands(commands);
    assert!(batch.stop);
    assert_eq!(batch.carried_out, 3);
    assert_eq!(batch.transmissions.len(), 3);
    for (i, (to, bytes)) in batch.transmissions.iter().enumerate() {
        assert_eq!(*to, server_addr());
        let packet = CompletePacket::deserialize(bytes.clone()).unwrap();
        assert_eq!(packet.seq, i as u16);
        assert_eq!(packet.payload, vec![i as u8 + 1]);
    }
}

#[test]
fn nothing_after_a_stop_is_carried_out() {
    let mut worker = SocketState::<String>::new();
    let commands = vec![
        send_command(vec![vec![1], vec![2]]),
        InternalSocketEvent::Stop,
        send_command(vec![vec![3]]),
        InternalSocketEvent::Stop,
    ];
    let batch = worker.run_commands(commands);
    assert!(batch.stop);
    assert_eq!(batch.carried_out, 1);
    assert_eq!(batch.transmissions.len(), 2);
    assert_eq!(worker.connection(&server_addr()).unwrap().seq_num, 2);
}

#[test]
fn batch_without_stop_runs_to_the_end() {
    let mut worker = SocketState::<String>::new();
    let batch = worker.run_commands(vec![send_command(vec![]), send_command(vec![vec![5]])]);
    assert!(!batch.stop);
    assert_eq!(batch.carried_out, 2);
    assert_eq!(batch.transmissions.len(), 1);
    let empty = worker.run_commands(Vec::new());
    assert!(!empty.stop);
    assert_eq!(empty.carried_out, 0);
    assert!(empty.transmissions.is_empty());
}

#[test]
fn stop_alone_ends_at_once() {
    let mut worker = SocketState::<String>::new();
    let batch = worker.run_commands(vec![InternalSocketEvent::Stop]);
    assert!(batch.stop);
    assert_eq!(batch.carried_out, 0);
    assert!(batch.transmissions.is_empty());
    assert!(worker.peers().is_empty());
}

#[test]
fn send_events_frames_in_order() {
    let mut worker = SocketState::<String>::new();
    let out = worker.send_events(server_addr(), &vec![vec![1], vec![2], vec![3]]);
    let seqs: Vec<(u16, Vec<u8>)> = out
        .iter()
        .map(|(_, b)| CompletePacket::deserialize(b.clone()).unwrap())
        .map(|p| (p.seq, p.payload))
        .collect();
    assert_eq!(seqs, vec![(0, vec![1]), (1, vec![2]), (2, vec![3])]);
}

#[test]
fn single_packet_early() {
    let mut client = SocketState::<String>::new();
    let mut client_worker = SocketState::<String>::new();
    let mut server = SocketState::<String>::new();
    let mut server_worker = SocketState::<String>::new();
    server.connect(client_addr());
    server_worker.connect(client_addr());

    let test_event = "1".to_string();
    client.queue_event(server_addr(), test_event.clone());

    let datagrams = tick(&mut client, &mut client_worker);
    assert_eq!(datagrams.len(), 1);
    take_in(&mut server_worker, &mut server, client_addr(), datagrams);

    let received = server.take_received(client_addr());
    assert_eq!(received.first(), Some(&test_event));
    assert!(server.take_received(client_addr()).is_empty());
}

#[test]
fn send_receive_100k_packets() {
    let mut client = SocketState::<String>::new();
    let mut client_worker = SocketState::<String>::new();
    let mut server = SocketState::<String>::new();
    let mut server_worker = SocketState::<String>::new();
    server.connect(client_addr());
    server_worker.connect(client_addr());
    client.connect(server_addr());

    for _round in 0..10 {
        for i in 0..10000 {
            client.queue_event(server_addr(), format!("Test {}", i));
        }
        let datagrams = tick(&mut client, &mut client_worker);
        take_in(&mut server_worker, &mut server, client_addr(), datagrams);
        assert_eq!(server.take_received(client_addr()).len(), 10000);
    }
}

#[test]
fn events_arrive_in_the_order_sent() {
    let mut client = SocketState::<String>::new();
    let mut client_worker = SocketState::<String>::new();
    let mut server = SocketState::<String>::new();
    let mut server_worker = SocketState::<String>::new();
    server.connect(client_addr());
    server_worker.connect(client_addr());
    for word in ["one", "two", "three"] {
        client.queue_event(server_addr(), word.to_string());
    }
    let datagrams = tick(&mut client, &mut client_worker);
    take_in(&mut server_worker, &mut server, client_addr(), datagrams);
    assert_eq!(
        server.take_received(client_addr()),
        vec!["one".to_string(), "two".to_string(), "three".to_string()]
    );
}

#[test]
fn undecodable_payload_reaches_no_buffer() {
    let mut server = SocketState::<String>::new();
    let mut server_worker = SocketState::<String>::new();
    server.connect(client_addr());
    server_worker.connect(client_addr());
    let bad = CompletePacket { seq: 0, ack_seq: 0, ack_field: 0, payload: vec![0xff, 0xfe] };
    take_in(&mut server_worker, &mut server, client_addr(), vec![(server_addr(), bad.serialized())]);
    assert!(server.take_received(client_addr()).is_empty());
    assert_eq!(server_worker.connection(&client_addr()).unwrap().their_acks.last_seq, 0);
}
