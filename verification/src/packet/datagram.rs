//! Payloads addressed to a peer, and the framed datagram that carries one.

use crate::address::PeerAddr;
use crate::packet::wire::{
    lemma_be_bytes_of_read, lemma_be_bytes_round_trip, read_u16_be, read_u32_be, u16_be_bytes,
    u16_from_be_bytes, u32_be_bytes, u32_from_be_bytes, write_u16_be, write_u32_be,
};
use vstd::prelude::*;
use vstd::slice::slice_subrange;

verus! {

/// Number of bytes in the header of a datagram.
pub const HEADER_LEN: usize = 8;

/// Mathematical model of a [`Packet`].
pub struct PacketView {
    pub addr: PeerAddr,
    pub payload: Seq<u8>,
}

/// An application payload and the peer it goes to or came from.
#[derive(Debug, PartialEq, Eq)]
pub struct Packet {
    pub addr: PeerAddr,
    pub payload: Vec<u8>,
}

impl View for Packet {
    type V = PacketView;

    open spec fn view(&self) -> PacketView {
        PacketView { addr: self.addr, payload: self.payload@ }
    }
}

impl Clone for Packet {
    fn clone(&self) -> (copy: Packet)
        ensures
            copy@ == self@,
    {
        Packet { addr: self.addr, payload: self.payload.clone() }
    }
}

impl Packet {
    /// The empty payload addressed to port 7878 of the IPv4 host `0.0.0.0`.
    pub fn dummy_packet() -> (p: Packet)
        ensures
            p@ == (PacketView {
                addr: PeerAddr { host: crate::address::ipv4_host(0, 0, 0, 0), port: 7878 },
                payload: Seq::<u8>::empty(),
            }),
    {
        Packet::new(PeerAddr::ipv4(0, 0, 0, 0, 7878), Vec::new())
    }

    /// A packet from the receiving endpoint and the data.
    pub fn new(addr: PeerAddr, payload: Vec<u8>) -> (p: Packet)
        ensures
            p@ == (PacketView { addr, payload: payload@ }),
    {
        Packet { addr, payload }
    }
}

/// Mathematical model of a [`CompletePacket`].
pub struct DatagramView {
    pub seq: u16,
    pub ack_seq: u16,
    pub ack_field: u32,
    pub payload: Seq<u8>,
}

/// The bytes of a datagram on the wire: sequence number, acknowledged
/// sequence number and acknowledgment field, big-endian, then the payload.
pub open spec fn encode_datagram(d: DatagramView) -> Seq<u8> {
    u16_be_bytes(d.seq) + u16_be_bytes(d.ack_seq) + u32_be_bytes(d.ack_field) + d.payload
}

/// The datagram that `bytes` frame, if they are long enough to hold a header.
pub open spec fn decode_datagram(bytes: Seq<u8>) -> Option<DatagramView> {
    if bytes.len() < HEADER_LEN {
        None
    } else {
        Some(
            DatagramView {
                seq: u16_from_be_bytes(bytes.subrange(0, 2)),
                ack_seq: u16_from_be_bytes(bytes.subrange(2, 4)),
                ack_field: u32_from_be_bytes(bytes.subrange(4, 8)),
                payload: bytes.subrange(8, bytes.len() as int),
            },
        )
    }
}

/// Decoding the bytes of a datagram gives the datagram back.
pub proof fn lemma_datagram_round_trip(d: DatagramView)
    ensures
        encode_datagram(d).len() == HEADER_LEN + d.payload.len(),
        decode_datagram(encode_datagram(d)) == Some(d),
{
    let bytes = encode_datagram(d);
    lemma_be_bytes_round_trip(d.seq, d.ack_field);
    lemma_be_bytes_round_trip(d.ack_seq, d.ack_field);
    assert(bytes.subrange(0, 2) =~= u16_be_bytes(d.seq));
    assert(bytes.subrange(2, 4) =~= u16_be_bytes(d.ack_seq));
    assert(bytes.subrange(4, 8) =~= u32_be_bytes(d.ack_field));
    assert(bytes.subrange(8, bytes.len() as int) =~= d.payload);
}

/// Encoding a decoded datagram gives the decoded bytes back.
pub proof fn lemma_datagram_bytes_round_trip(bytes: Seq<u8>)
    requires
        bytes.len() >= HEADER_LEN,
    ensures
        encode_datagram(decode_datagram(bytes).unwrap()) == bytes,
{
    lemma_be_bytes_of_read(bytes.subrange(0, 2));
    lemma_be_bytes_of_read(bytes.subrange(2, 4));
    lemma_be_bytes_of_read(bytes.subrange(4, 8));
    assert(encode_datagram(decode_datagram(bytes).unwrap()) =~= bytes);
}

/// Why bytes could not be read as a datagram.
#[derive(Clone, Copy, Debug, PartialEq, Eq, Structural)]
pub enum FramingError {
    /// Fewer bytes than a header holds.
    TooShort,
}

/// The packet as it goes over the network: its sequence number, the last
/// sequence number acknowledged, a bitfield of the 32 acknowledged before
/// that one, and the payload.
#[derive(Debug, PartialEq, Eq)]
pub struct CompletePacket {
    pub seq: u16,
    pub ack_seq: u16,
    pub ack_field: u32,
    pub payload: Vec<u8>,
}

impl View for CompletePacket {
    type V = DatagramView;

    open spec fn view(&self) -> DatagramView {
        DatagramView {
            seq: self.seq,
            ack_seq: self.ack_seq,
            ack_field: self.ack_field,
            payload: self.payload@,
        }
    }
}

impl Clone for CompletePacket {
    fn clone(&self) -> (copy: CompletePacket)
        ensures
            copy@ == self@,
    {
        CompletePacket {
            seq: self.seq,
            ack_seq: self.ack_seq,
            ack_field: self.ack_field,
            payload: self.payload.clone(),
        }
    }
}

impl CompletePacket {
    /// The bytes of this datagram on the wire.
    pub fn serialized(&self) -> (bytes: Vec<u8>)
        ensures
            bytes@ == encode_datagram(self@),
            decode_datagram(bytes@) == Some(self@),
    {
        let mut wtr: Vec<u8> = Vec::new();
        write_u16_be(&mut wtr, self.seq);
        write_u16_be(&mut wtr, self.ack_seq);
        write_u32_be(&mut wtr, self.ack_field);
        let mut payload = self.payload.clone();
        wtr.append(&mut payload);
        proof {
            assert(wtr@ =~= encode_datagram(self@));
            lemma_datagram_round_trip(self@);
        }
        wtr
    }

    /// Reads a datagram from its bytes on the wire.
    pub fn deserialize(bytes: Vec<u8>) -> (r: Result<CompletePacket, FramingError>)
        ensures
            match decode_datagram(bytes@) {
                Some(d) => r is Ok && r->Ok_0@ == d,
                None => r == Err::<CompletePacket, FramingError>(FramingError::TooShort),
            },
    {
        let mut bytes = bytes;
        if bytes.len() < HEADER_LEN {
            return Err(FramingError::TooShort);
        }
        let payload = bytes.split_off(HEADER_LEN);
        let header = bytes.as_slice();
        let seq = read_u16_be(slice_subrange(header, 0, 2));
        let ack_seq = read_u16_be(slice_subrange(header, 2, 4));
        let ack_field = read_u32_be(slice_subrange(header, 4, 8));
        Ok(CompletePacket { seq, ack_seq, ack_field, payload })
    }
}

} // verus!
