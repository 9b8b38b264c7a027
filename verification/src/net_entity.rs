//! The bytes that stand for an event on the wire.

use vstd::prelude::*;

verus! {

/// Turns the outcome of encoding an event into the payload to send.
pub struct NetEntity {}

impl NetEntity {
    pub fn new() -> (entity: NetEntity)
        ensures
            entity == (NetEntity {  }),
    {
        NetEntity {  }
    }

    /// The payload for an event, from the outcome of encoding it: the
    /// encoded bytes, or no bytes at all where the encoding failed.
    pub fn serialize<X>(encoded: Result<Vec<u8>, X>) -> (payload: Vec<u8>)
        ensures
            payload@ == match encoded {
                Ok(bytes) => bytes@,
                Err(_) => Seq::<u8>::empty(),
            },
    {
        match encoded {
            Ok(bytes) => bytes,
            Err(_) => Vec::new(),
        }
    }
}

} // verus!
