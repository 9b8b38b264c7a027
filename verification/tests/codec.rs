use amethyst_network::address::PeerAddr;
use amethyst_network::message::MessageCodec;
use amethyst_network::net_entity::NetEntity;
use amethyst_network::net_identity::NetIdentity;
use amethyst_network::packet::datagram::{CompletePacket, FramingError, Packet, HEADER_LEN};

#[test]
fn header_is_big_endian() {
    let packet = CompletePacket {
        seq: 0x0102,
        ack_seq: 0x0304,
        ack_field: 0x0506_0708,
        payload: vec![9, 10],
    };
    assert_eq!(packet.serialized(), vec![1, 2, 3, 4, 5, 6, 7, 8, 9, 10]);
}

#[test]
fn header_alone_is_eight_bytes() {
    let packet = CompletePacket { seq: 0, ack_seq: 0, ack_field: 0, payload: Vec::new() };
    let bytes = packet.serialized();
    assert_eq!(bytes.len(), HEADER_LEN);
    assert_eq!(bytes, vec![0; 8]);
}

#[test]
fn extreme_header_values() {
    let packet = CompletePacket {
        seq: 0xffff,
        ack_seq: 0x8000,
        ack_field: 0xffff_fffe,
        payload: vec![0],
    };
    assert_eq!(
        packet.serialized(),
        vec![0xff, 0xff, 0x80, 0x00, 0xff, 0xff, 0xff, 0xfe, 0]
    );
}

#[test]
fn deserialize_reads_big_endian() {
    let packet = CompletePacket::deserialize(vec![0x12, 0x34, 0xab, 0xcd, 1, 2, 3, 4, 7, 7, 7]);
    assert_eq!(
        packet,
        Ok(CompletePacket {
            seq: 0x1234,
            ack_seq: 0xabcd,
            ack_field: 0x0102_0304,
            payload: vec![7, 7, 7],
        })
    );
}

#[test]
fn deserialize_of_a_bare_header_has_no_payload() {
    let packet = CompletePacket::deserialize(vec![0, 1, 0, 2, 0, 0, 0, 3]).unwrap();
    assert_eq!((packet.seq, packet.ack_seq, packet.ack_field), (1, 2, 3));
    assert!(packet.payload.is_empty());
}

#[test]
fn short_buffers_are_rejected() {
    for len in 0..8 {
        assert_eq!(CompletePacket::deserialize(vec![1; len]), Err(FramingError::TooShort));
    }
}

#[test]
fn round_trip() {
    let cases = [
        (0u16, 0u16, 0u32, vec![]),
        (1, 2, 3, vec![4]),
        (65535, 32000, 0xdead_beef, vec![0, 255, 1, 254]),
        (256, 255, 0x0100_0000, vec![8; 100]),
    ];
    for (seq, ack_seq, ack_field, payload) in cases {
        let packet = CompletePacket { seq, ack_seq, ack_field, payload };
        let bytes = packet.serialized();
        assert_eq!(bytes.len(), 8 + packet.payload.len());
        assert_eq!(CompletePacket::deserialize(bytes), Ok(packet.clone()));
    }
}

#[test]
fn bytes_round_trip() {
    let bytes: Vec<u8> = (0u8..40).collect();
    let packet = CompletePacket::deserialize(bytes.clone()).unwrap();
    assert_eq!(packet.serialized(), bytes);
}

#[test]
fn dummy_packet_is_empty() {
    let p = Packet::dummy_packet();
    assert_eq!(p.addr, PeerAddr::ipv4(0, 0, 0, 0, 7878));
    assert!(p.payload.is_empty());
    assert_eq!(p.clone(), p);
}

#[test]
fn ipv4_addresses_are_mapped() {
    let addr = PeerAddr::ipv4(127, 0, 0, 1, 45214);
    assert_eq!(addr.host, 0xffff_7f00_0001);
    assert_eq!(addr.port, 45214);
    assert_eq!(addr, PeerAddr::new(0xffff_7f00_0001, 45214));
    assert_ne!(addr, PeerAddr::ipv4(127, 0, 0, 1, 45215));
}

#[test]
fn ipv4_parts_undo_the_mapping() {
    assert_eq!(PeerAddr::ipv4(192, 168, 1, 254, 80).ipv4_parts(), Some((192, 168, 1, 254)));
    assert_eq!(PeerAddr::ipv4(0, 0, 0, 0, 1).ipv4_parts(), Some((0, 0, 0, 0)));
    assert_eq!(PeerAddr::ipv4(255, 255, 255, 255, 1).ipv4_parts(), Some((255, 255, 255, 255)));
    assert_eq!(PeerAddr::new(1, 80).ipv4_parts(), None);
    assert_eq!(PeerAddr::new(0xffff_0000_0000 - 1, 80).ipv4_parts(), None);
    assert_eq!(PeerAddr::new(0x1_0000_0000_0000, 80).ipv4_parts(), None);
    assert_eq!(PeerAddr::new(u128::MAX, 80).ipv4_parts(), None);
}

#[test]
fn encoded_event_or_nothing() {
    let _ = NetEntity::new();
    assert_eq!(NetEntity::serialize::<()>(Ok(vec![1, 2])), vec![1, 2]);
    assert_eq!(NetEntity::serialize(Err("no")), Vec::<u8>::new());
}

#[test]
fn identity_is_a_random_uuid() {
    let a = NetIdentity::default();
    let b = NetIdentity::default();
    assert_eq!((a.uuid >> 76) & 0xf, 4);
    assert_eq!((a.uuid >> 62) & 0x3, 2);
    assert_eq!((b.uuid >> 76) & 0xf, 4);
    assert_eq!((b.uuid >> 62) & 0x3, 2);
    assert_ne!(a, b);
}

#[test]
fn message_codec_passes_bytes_through() {
    let mut codec = MessageCodec {};
    let addr = PeerAddr::ipv4(10, 0, 0, 1, 9);
    assert_eq!(codec.decode(&addr, &[1, 2, 3]), (addr, vec![1, 2, 3]));
    let mut into = vec![9];
    assert_eq!(codec.encode((addr, vec![4, 5]), &mut into), addr);
    assert_eq!(into, vec![9, 4, 5]);
}
