//! Addresses of peers on the datagram transport.

use vstd::prelude::*;

verus! {

/// The first of the hosts that stand for IPv4 addresses in the 128-bit host
/// space: the 32 bits of the IPv4 address are added to it.
pub const IPV4_PREFIX: u128 = 0xffff_0000_0000;

/// Address of a peer: a 128-bit host and a port. An IPv4 host is held in its
/// mapped form, behind [`IPV4_PREFIX`].
#[derive(Clone, Copy, Debug, PartialEq, Eq, Structural, Hash)]
pub struct PeerAddr {
    pub host: u128,
    pub port: u16,
}

/// The host that stands for the IPv4 address `a.b.c.d`.
pub open spec fn ipv4_host(a: u8, b: u8, c: u8, d: u8) -> u128 {
    (IPV4_PREFIX + a * 0x100_0000 + b * 0x1_0000 + c * 0x100 + d) as u128
}

impl PeerAddr {
    pub fn new(host: u128, port: u16) -> (addr: PeerAddr)
        ensures
            addr == (PeerAddr { host, port }),
    {
        PeerAddr { host, port }
    }

    /// The four parts `a.b.c.d` of the host, where it is an IPv4 host.
    pub fn ipv4_parts(&self) -> (parts: Option<(u8, u8, u8, u8)>)
        ensures
            match parts {
                Some((a, b, c, d)) => self.host == ipv4_host(a, b, c, d),
                None => forall|a: u8, b: u8, c: u8, d: u8| self.host != ipv4_host(a, b, c, d),
            },
    {
        if self.host < IPV4_PREFIX || self.host - IPV4_PREFIX > 0xffff_ffff {
            return None;
        }
        let low: u128 = self.host - IPV4_PREFIX;
        let a: u8 = (low / 0x100_0000) as u8;
        let b: u8 = ((low / 0x1_0000) % 0x100) as u8;
        let c: u8 = ((low / 0x100) % 0x100) as u8;
        let d: u8 = (low % 0x100) as u8;
        Some((a, b, c, d))
    }

    /// The address of port `port` on the IPv4 host `a.b.c.d`.
    pub fn ipv4(a: u8, b: u8, c: u8, d: u8, port: u16) -> (addr: PeerAddr)
        ensures
            addr == (PeerAddr { host: ipv4_host(a, b, c, d), port }),
    {
        let high: u128 = (a as u128) * 0x100_0000 + (b as u128) * 0x1_0000;
        let host: u128 = IPV4_PREFIX + high + (c as u128) * 0x100 + (d as u128);
        PeerAddr { host, port }
    }
}

} // verus!
