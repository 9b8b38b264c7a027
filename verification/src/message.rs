//! Messages of the low-level server: bytes and the address they belong to.

use crate::address::PeerAddr;
use vstd::prelude::*;

verus! {

/// Represents the player.
pub struct Player {
    id: u8,
}

/// Message codec that passes the bytes of a message through unchanged,
/// together with the address of the peer.
pub struct MessageCodec {}

impl MessageCodec {
    /// The message that `buf`, received from `addr`, holds.
    pub fn decode(&mut self, addr: &PeerAddr, buf: &[u8]) -> (message: (PeerAddr, Vec<u8>))
        ensures
            message.0 == *addr,
            message.1@ == buf@,
    {
        (*addr, vstd::slice::slice_to_vec(buf))
    }

    /// Appends the bytes of `message` to `into`, and returns the address
    /// that they go to.
    pub fn encode(&mut self, message: (PeerAddr, Vec<u8>), into: &mut Vec<u8>) -> (addr: PeerAddr)
        ensures
            addr == message.0,
            final(into)@ == old(into)@ + message.1@,
    {
        let (addr, buf) = message;
        let mut buf = buf;
        into.append(&mut buf);
        addr
    }
}

} // verus!
