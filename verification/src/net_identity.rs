//! The identity of a participant in the network.

use uuid::Uuid;
use vstd::prelude::*;

verus! {

/// Whether `bits`, read as the 128 bits of a UUID, carry version 4 and the
/// variant of RFC 4122.
pub open spec fn is_random_uuid(bits: u128) -> bool {
    (bits >> 76u128) & 0xf == 4 && (bits >> 62u128) & 0x3 == 2
}

/// A network identity. It can represent either a client or a server: anything
/// that can own an entity or a component.
#[derive(Debug, PartialEq, Eq, Hash)]
pub struct NetIdentity {
    /// The 128 bits of the UUID identifying this identity.
    pub uuid: u128,
}

/// `uuid::Uuid::new_v4`, handed on through `Uuid::as_u128`: the bits of a
/// UUID drawn from the operating system's random numbers. Whatever was drawn,
/// the outside function sets the version to 4 and the variant to that of
/// RFC 4122; nothing else is claimed of the result. The outside function
/// panics where the operating system gives no random numbers.
#[verifier::external_body]
fn new_v4_bits() -> (bits: u128)
    ensures
        is_random_uuid(bits),
{
    Uuid::new_v4().as_u128()
}

impl Default for NetIdentity {
    fn default() -> (identity: NetIdentity)
        ensures
            is_random_uuid(identity.uuid),
    {
        NetIdentity { uuid: new_v4_bits() }
    }
}

} // verus!
