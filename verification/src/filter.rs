//! Filters that a received event passes before it is delivered.

use crate::address::PeerAddr;
use crate::socket_state::SocketState;
use vstd::prelude::*;

verus! {

/// A test that a received event must pass before it is delivered.
pub trait NetFilter<E> {
    /// Whether this filter lets `event`, received from `source`, through.
    fn allow(&self, source: &PeerAddr, event: &E) -> (allowed: bool);
}

/// The filter that lets every event through.
pub struct PassThrough {}

impl<E> NetFilter<E> for PassThrough {
    fn allow(&self, source: &PeerAddr, event: &E) -> (allowed: bool)
        ensures
            allowed,
    {
        true
    }
}

/// Every one of `filters`, asked in order about `event` received from
/// `source`, let it through.
pub open spec fn let_through<E, F: NetFilter<E>>(filters: Seq<F>, source: PeerAddr, event: E) -> bool {
    forall|i: int|
        0 <= i < filters.len() ==> call_ensures(
            F::allow,
            (&#[trigger] filters[i], &source, &event),
            true,
        )
}

/// One of `filters`, asked about `event` received from `source` after all
/// the filters before it had let the event through, refused it.
pub open spec fn vetoed<E, F: NetFilter<E>>(filters: Seq<F>, source: PeerAddr, event: E) -> bool {
    exists|i: int|
        0 <= i < filters.len() && call_ensures(
            F::allow,
            (&#[trigger] filters[i], &source, &event),
            false,
        ) && let_through(filters.take(i), source, event)
}

/// Runs the filters over `event`, in order, up to the first that refuses it.
/// Returns whether all of them let it through.
pub fn passes<E, F: NetFilter<E>>(filters: &Vec<F>, source: &PeerAddr, event: &E) -> (passed: bool)
    ensures
        passed ==> let_through(filters@, *source, *event),
        !passed ==> vetoed(filters@, *source, *event),
{
    let mut i: usize = 0;
    while i < filters.len()
        invariant
            i <= filters@.len(),
            let_through(filters@.take(i as int), *source, *event),
        decreases filters@.len() - i,
    {
        let allowed = filters[i].allow(source, event);
        if !allowed {
            proof {
                assert(call_ensures(F::allow, (&filters@[i as int], source, event), false));
            }
            return false;
        }
        proof {
            let next = filters@.take(i + 1);
            assert forall|j: int| 0 <= j < next.len() implies call_ensures(
                F::allow,
                (&#[trigger] next[j], source, event),
                true,
            ) by {
                if j < i {
                    assert(filters@.take(i as int)[j] == next[j]);
                }
            }
        }
        i += 1;
    }
    proof {
        assert(filters@.take(i as int) =~= filters@);
    }
    true
}

impl<E> SocketState<E> {
    /// Hands the outcome of decoding a payload from `addr` to the receive
    /// buffer of that peer's connection, where every one of `filters` lets
    /// the event through. A payload that did not decode, one from an address
    /// without a connection, and one that a filter refuses is dropped:
    /// nothing changes. The filters are asked only about an event that has a
    /// connection to go to. Returns whether the event was delivered.
    pub fn deliver_filtered<F: NetFilter<E>>(
        &mut self,
        addr: PeerAddr,
        decoded: Option<E>,
        filters: &Vec<F>,
    ) -> (delivered: bool)
        requires
            old(self).wf(),
        ensures
            final(self).wf(),
            delivered ==> decoded is Some && old(self)@.connections.contains_key(addr)
                && let_through(filters@, addr, decoded->Some_0),
            !delivered ==> decoded is None || !old(self)@.connections.contains_key(addr) || vetoed(
                filters@,
                addr,
                decoded->Some_0,
            ),
            final(self)@ == if delivered {
                old(self)@.after_delivery(addr, decoded->Some_0)
            } else {
                old(self)@
            },
    {
        match decoded {
            None => false,
            Some(event) => {
                if self.contains(&addr) && passes(filters, &addr, &event) {
                    self.deliver(addr, Some(event))
                } else {
                    false
                }
            },
        }
    }
}

} // verus!
