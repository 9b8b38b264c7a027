//! A map keyed by peer address, with constant-time lookup.

use crate::address::PeerAddr;
use std::collections::HashMap;
use vstd::prelude::*;

verus! {

broadcast use vstd::std_specs::hash::group_hash_axioms;

/// A map from peer addresses to values: one hash table by host, and under
/// each host one by port.
pub struct AddrMap<V> {
    hosts: HashMap<u128, HashMap<u16, V>>,
}

impl<V> View for AddrMap<V> {
    type V = Map<PeerAddr, V>;

    closed spec fn view(&self) -> Map<PeerAddr, V> {
        Map::new(
            |a: PeerAddr|
                self.hosts@.contains_key(a.host) && self.hosts@[a.host]@.contains_key(a.port),
            |a: PeerAddr| self.hosts@[a.host]@[a.port],
        )
    }
}

impl<V> AddrMap<V> {
    pub fn new() -> (m: AddrMap<V>)
        ensures
            m@ == Map::<PeerAddr, V>::empty(),
    {
        let m = AddrMap { hosts: HashMap::new() };
        assert(m@ =~= Map::<PeerAddr, V>::empty());
        m
    }

    pub fn contains_key(&self, addr: &PeerAddr) -> (found: bool)
        ensures
            found == self@.contains_key(*addr),
    {
        match self.hosts.get(&addr.host) {
            Some(ports) => ports.contains_key(&addr.port),
            None => false,
        }
    }

    pub fn get(&self, addr: &PeerAddr) -> (value: Option<&V>)
        ensures
            match value {
                Some(v) => self@.contains_key(*addr) && *v == self@[*addr],
                None => !self@.contains_key(*addr),
            },
    {
        match self.hosts.get(&addr.host) {
            Some(ports) => ports.get(&addr.port),
            None => None,
        }
    }

    /// Puts `value` under `addr` and returns what was there before.
    pub fn insert(&mut self, addr: PeerAddr, value: V) -> (previous: Option<V>)
        ensures
            final(self)@ == old(self)@.insert(addr, value),
            match previous {
                Some(v) => old(self)@.contains_key(addr) && v == old(self)@[addr],
                None => !old(self)@.contains_key(addr),
            },
    {
        let mut ports = match self.hosts.remove(&addr.host) {
            Some(ports) => ports,
            None => HashMap::new(),
        };
        let previous = ports.insert(addr.port, value);
        self.hosts.insert(addr.host, ports);
        assert(self@ =~= old(self)@.insert(addr, value));
        previous
    }

    /// Takes out what is under `addr`, if anything.
    pub fn remove(&mut self, addr: &PeerAddr) -> (value: Option<V>)
        ensures
            final(self)@ == old(self)@.remove(*addr),
            match value {
                Some(v) => old(self)@.contains_key(*addr) && v == old(self)@[*addr],
                None => !old(self)@.contains_key(*addr),
            },
    {
        match self.hosts.remove(&addr.host) {
            Some(ports) => {
                let mut ports = ports;
                let value = ports.remove(&addr.port);
                self.hosts.insert(addr.host, ports);
                assert(self@ =~= old(self)@.remove(*addr));
                value
            },
            None => {
                assert(self@ =~= old(self)@.remove(*addr));
                None
            },
        }
    }
}

} // verus!
