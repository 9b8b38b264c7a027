//! The send path and the receive path of one event, with the application's
//! codec handed in.

use crate::address::PeerAddr;
use crate::packet::datagram::{decode_datagram, Packet, PacketView};
use crate::socket_state::{transmission_views, ReceiveError, RegistryView, SocketState};
use vstd::prelude::*;

verus! {

/// How the receive path ended for a datagram that was taken in.
#[derive(Clone, Copy, Debug, PartialEq, Eq, Structural)]
pub enum Delivery {
    /// The payload decoded, and the event is in the receive buffer.
    Delivered,
    /// The payload did not decode, and was dropped.
    Undecodable,
}

impl<E> SocketState<E> {
    /// The send path for one event: `encode` gives the payload, which is
    /// sent to `target` behind the packets that the last report gave up.
    /// Returns the datagrams to transmit, in order, each with its
    /// destination.
    pub fn send_event<C: Fn(&E) -> Vec<u8>>(&mut self, target: PeerAddr, event: &E, encode: C) -> (out:
        Vec<(PeerAddr, Vec<u8>)>)
        requires
            old(self).wf(),
            call_requires(encode, (event,)),
        ensures
            final(self).wf(),
            exists|payload: Vec<u8>|
                {
                    &&& call_ensures(encode, (event,), payload)
                    &&& final(self)@ == old(self)@.after_send(
                        PacketView { addr: target, payload: payload@ },
                    )
                    &&& transmission_views(out@) == old(self)@.transmissions_for(
                        PacketView { addr: target, payload: payload@ },
                    )
                },
    {
        let payload = encode(event);
        let ghost encoded = payload;
        let out = self.send(Packet::new(target, payload));
        proof {
            assert(call_ensures(encode, (event,), encoded));
        }
        out
    }

    /// The receive path for the bytes of one datagram that came from `addr`:
    /// the header is read, the connection of `addr` takes the datagram in,
    /// `decode` is run on the payload, and the event, where there is one,
    /// goes to the end of the connection's receive buffer. Bytes too few to
    /// hold a header, and bytes from an address without a connection, are
    /// dropped: nothing changes. A payload that does not decode is dropped
    /// after the datagram has been taken in.
    pub fn receive_event<D: Fn(&Vec<u8>) -> Option<E>>(
        &mut self,
        addr: PeerAddr,
        bytes: Vec<u8>,
        decode: D,
    ) -> (outcome: Result<Delivery, ReceiveError>)
        requires
            old(self).wf(),
            forall|payload: &Vec<u8>| call_requires(decode, (payload,)),
        ensures
            final(self).wf(),
            match decode_datagram(bytes@) {
                None => outcome == Err::<Delivery, ReceiveError>(ReceiveError::TooShort) && final(
                    self)@ == old(self)@,
                Some(d) => if old(self)@.connections.contains_key(addr) {
                    exists|taken: RegistryView<E>, payload: Vec<u8>, decoded: Option<E>|
                        {
                            &&& old(self)@.takes_in(taken, addr, d)
                            &&& payload@ == d.payload
                            &&& call_ensures(decode, (&payload,), decoded)
                            &&& match decoded {
                                Some(event) => outcome == Ok::<Delivery, ReceiveError>(
                                    Delivery::Delivered,
                                ) && final(self)@ == taken.after_delivery(addr, event),
                                None => outcome == Ok::<Delivery, ReceiveError>(
                                    Delivery::Undecodable,
                                ) && final(self)@ == taken,
                            }
                        }
                } else {
                    outcome == Err::<Delivery, ReceiveError>(ReceiveError::UnknownPeer) && final(
                        self)@ == old(self)@
                },
            },
    {
        match self.receive_bytes(addr, bytes) {
            Err(e) => Err(e),
            Ok(packet) => {
                let ghost taken = self@;
                let payload = packet.payload;
                let decoded = decode(&payload);
                let ghost result = decoded;
                let delivered = self.deliver(addr, decoded);
                proof {
                    let d = decode_datagram(bytes@)->Some_0;
                    assert(old(self)@.takes_in(taken, addr, d));
                    assert(call_ensures(decode, (&payload,), result));
                }
                if delivered {
                    Ok(Delivery::Delivered)
                } else {
                    Ok(Delivery::Undecodable)
                }
            },
        }
    }
}

} // verus!
