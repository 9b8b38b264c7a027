use amethyst_network::address::PeerAddr;
use amethyst_network::exchange::Delivery;
use amethyst_network::filter::{passes, NetFilter, PassThrough};
use amethyst_network::packet::datagram::CompletePacket;
use amethyst_network::socket_state::{ReceiveError, SocketState};

fn here() -> PeerAddr {
    PeerAddr::ipv4(192, 168, 0, 1, 5000)
}

fn there() -> PeerAddr {
    PeerAddr::ipv4(192, 168, 0, 2, 5000)
}

fn to_bytes(word: &String) -> Vec<u8> {
    word.as_bytes().to_vec()
}

fn from_bytes(bytes: &Vec<u8>) -> Option<String> {
    String::from_utf8(bytes.clone()).ok()
}

#[test]
fn event_goes_out_encoded_and_comes_in_decoded() {
    let mut a = SocketState::<String>::new();
    let mut b = SocketState::<String>::new();
    b.connect(here());
    let out = a.send_event(there(), &"hi".to_string(), to_bytes);
    assert_eq!(out.len(), 1);
    assert_eq!(out[0].0, there());
    assert_eq!(
        CompletePacket::deserialize(out[0].1.clone()),
        Ok(CompletePacket { seq: 0, ack_seq: 0, ack_field: 0, payload: vec![b'h', b'i'] })
    );
    assert_eq!(b.receive_event(here(), out[0].1.clone(), from_bytes), Ok(Delivery::Delivered));
    assert_eq!(b.take_received(here()), vec!["hi".to_string()]);
}

#[test]
fn undecodable_payload_is_dropped_after_the_header_counted() {
    let mut b = SocketState::<String>::new();
    b.connect(here());
    let bad = CompletePacket { seq: 12, ack_seq: 0, ack_field: 0, payload: vec![0xff] };
    assert_eq!(b.receive_event(here(), bad.serialized(), from_bytes), Ok(Delivery::Undecodable));
    let c = b.connection(&here()).unwrap();
    assert!(c.receive_buffer.is_empty());
    assert_eq!(c.their_acks.last_seq, 12);
}

#[test]
fn receive_path_drops_what_it_cannot_place() {
    let mut b = SocketState::<String>::new();
    b.connect(here());
    let good = CompletePacket { seq: 1, ack_seq: 0, ack_field: 0, payload: vec![b'x'] };
    assert_eq!(
        b.receive_event(there(), good.serialized(), from_bytes),
        Err(ReceiveError::UnknownPeer)
    );
    assert_eq!(b.receive_event(here(), vec![0; 7], from_bytes), Err(ReceiveError::TooShort));
    assert!(!b.contains(&there()));
    let c = b.connection(&here()).unwrap();
    assert!(c.receive_buffer.is_empty());
    assert_eq!(c.their_acks.last_seq, 0);
}

struct OnlyFrom(PeerAddr);

impl NetFilter<String> for OnlyFrom {
    fn allow(&self, source: &PeerAddr, _event: &String) -> bool {
        *source == self.0
    }
}

struct NoShouting;

impl NetFilter<String> for NoShouting {
    fn allow(&self, _source: &PeerAddr, event: &String) -> bool {
        !event.ends_with('!')
    }
}

#[test]
fn pass_through_lets_everything_in() {
    let mut b = SocketState::<String>::new();
    b.connect(here());
    let filters = vec![PassThrough {}, PassThrough {}];
    assert!(passes(&filters, &here(), &"a".to_string()));
    assert!(b.deliver_filtered(here(), Some("a".to_string()), &filters));
    assert!(b.deliver_filtered(here(), Some("b".to_string()), &Vec::<PassThrough>::new()));
    assert!(!b.deliver_filtered(here(), None, &filters));
    assert!(!b.deliver_filtered(there(), Some("c".to_string()), &filters));
    assert_eq!(b.take_received(here()), vec!["a".to_string(), "b".to_string()]);
}

#[test]
fn a_filter_can_veto() {
    let mut b = SocketState::<String>::new();
    b.connect(here());
    b.connect(there());
    let only = vec![OnlyFrom(here())];
    assert!(b.deliver_filtered(here(), Some("a".to_string()), &only));
    assert!(!b.deliver_filtered(there(), Some("b".to_string()), &only));
    let quiet = vec![NoShouting, NoShouting];
    assert!(!b.deliver_filtered(here(), Some("c!".to_string()), &quiet));
    assert!(b.deliver_filtered(here(), Some("d".to_string()), &quiet));
    assert_eq!(b.take_received(here()), vec!["a".to_string(), "d".to_string()]);
    assert!(b.take_received(there()).is_empty());
}
