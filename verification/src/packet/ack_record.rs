//! Packets sent and not yet resolved.

use crate::packet::datagram::{Packet, PacketView};
use crate::packet::external::{ack_bit, records, seq_diff, AckSummary, ACK_WINDOW, SEQ_HORIZON};
use std::collections::HashMap;
use vstd::prelude::*;

verus! {

broadcast use vstd::std_specs::hash::group_hash_axioms;

/// What an acknowledgment report makes of one packet that was sent.
#[derive(Clone, Copy, Debug, PartialEq, Eq, Structural)]
pub enum PacketFate {
    /// The peer has it.
    Acked,
    /// The peer's horizon has passed it without confirming it.
    Dropped,
    /// Nothing is known yet.
    Pending,
}

/// The fate of the packet sent under sequence number `k`, when the peer
/// reports `seq` as the last sequence number it received and `field` as the
/// bitfield of the 32 before that one.
pub open spec fn packet_fate(k: u16, seq: u16, field: u32) -> PacketFate {
    let diff = seq_diff(seq, k);
    if diff == 0 {
        PacketFate::Acked
    } else if diff <= ACK_WINDOW {
        if field & ack_bit(diff) != 0 {
            PacketFate::Acked
        } else {
            PacketFate::Pending
        }
    } else if diff < SEQ_HORIZON {
        PacketFate::Dropped
    } else {
        PacketFate::Pending
    }
}

/// The entries of `m` with the given fate under the report `(seq, field)`.
pub open spec fn with_fate(m: Map<u16, PacketView>, seq: u16, field: u32, fate: PacketFate) -> Map<
    u16,
    PacketView,
> {
    m.restrict(Set::new(|k: u16| packet_fate(k, seq, field) == fate))
}

/// The list holds each entry of `m` once, and nothing else.
pub open spec fn lists_entries(list: Seq<(u16, Packet)>, m: Map<u16, PacketView>) -> bool {
    &&& forall|i: int, j: int| 0 <= i < j < list.len() ==> list[i].0 != list[j].0
    &&& forall|i: int|
        0 <= i < list.len() ==> m.contains_key(#[trigger] list[i].0) && list[i].1@ == m[list[i].0]
    &&& forall|k: u16| #[trigger]
        m.contains_key(k) ==> exists|i: int| 0 <= i < list.len() && list[i].0 == k
}

/// Packets waiting for an acknowledgment, by the sequence number each was
/// sent under.
#[derive(Debug)]
pub struct AckRecord {
    packets: HashMap<u16, Packet>,
}

impl View for AckRecord {
    type V = Map<u16, PacketView>;

    closed spec fn view(&self) -> Map<u16, PacketView> {
        Map::new(|k: u16| self.packets@.contains_key(k), |k: u16| self.packets@[k]@)
    }
}

impl AckRecord {
    pub fn new() -> (record: AckRecord)
        ensures
            record@ == Map::<u16, PacketView>::empty(),
    {
        let record = AckRecord { packets: HashMap::new() };
        assert(record@ =~= Map::<u16, PacketView>::empty());
        record
    }

    pub fn is_empty(&mut self) -> (empty: bool)
        ensures
            final(self)@ == old(self)@,
            empty <==> old(self)@ == Map::<u16, PacketView>::empty(),
    {
        proof {
            self.lemma_view_dom();
            if self.packets@.len() == 0 {
                assert(self@ =~= Map::<u16, PacketView>::empty());
            }
        }
        self.packets.is_empty()
    }

    pub fn len(&mut self) -> (n: usize)
        ensures
            final(self)@ == old(self)@,
            old(self)@.dom().finite(),
            n == old(self)@.len(),
    {
        proof {
            self.lemma_view_dom();
        }
        self.packets.len()
    }

    /// Whether a packet waits under the sequence number `seq`.
    pub fn contains(&self, seq: u16) -> (found: bool)
        ensures
            found == self@.contains_key(seq),
    {
        self.packets.contains_key(&seq)
    }

    /// Adds a packet to the waiting packets, under the sequence number it
    /// was sent with. A packet already waiting under that number is replaced.
    pub fn enqueue(&mut self, seq: u16, packet: Packet)
        ensures
            final(self)@ == old(self)@.insert(seq, packet@),
    {
        self.packets.insert(seq, packet);
        assert(self@ =~= old(self)@.insert(seq, packet@));
    }

    /// Finds and removes the packets that the report `(seq, seq_field)`
    /// acknowledges or gives up, and returns the ones it gives up. Those that
    /// stay are the pending ones.
    pub fn ack(&mut self, seq: u16, seq_field: u32) -> (dropped: Vec<(u16, Packet)>)
        ensures
            final(self)@ == with_fate(old(self)@, seq, seq_field, PacketFate::Pending),
            lists_entries(dropped@, with_fate(old(self)@, seq, seq_field, PacketFate::Dropped)),
    {
        let ghost before = self.packets@;
        let mut dropped_packets: Vec<u16> = Vec::new();
        let mut acked_packets: Vec<u16> = Vec::new();
        for k in it: self.packets.keys()
            invariant
                self.packets@ == before,
                it.seq().unref().to_set() == before.dom(),
                it.seq().no_duplicates(),
                forall|i: int|
                    0 <= i < acked_packets@.len() ==> before.contains_key(
                        #[trigger] acked_packets@[i],
                    ) && packet_fate(acked_packets@[i], seq, seq_field) == PacketFate::Acked,
                forall|i: int|
                    0 <= i < dropped_packets@.len() ==> before.contains_key(
                        #[trigger] dropped_packets@[i],
                    ),
                forall|i: int|
                    0 <= i < dropped_packets@.len() ==> packet_fate(
                        #[trigger] dropped_packets@[i],
                        seq,
                        seq_field,
                    ) == PacketFate::Dropped && exists|j: int|
                        0 <= j < it.index() && *it.seq()[j] == dropped_packets@[i],
                dropped_packets@.no_duplicates(),
                forall|j: int|
                    0 <= j < it.index() && packet_fate(*#[trigger] it.seq()[j], seq, seq_field)
                        == PacketFate::Acked ==> acked_packets@.contains(*it.seq()[j]),
                forall|j: int|
                    0 <= j < it.index() && packet_fate(*#[trigger] it.seq()[j], seq, seq_field)
                        == PacketFate::Dropped ==> dropped_packets@.contains(*it.seq()[j]),
            ensures
                forall|k: u16|
                    before.contains_key(k) && packet_fate(k, seq, seq_field) == PacketFate::Acked
                        ==> acked_packets@.contains(k),
                forall|k: u16|
                    before.contains_key(k) && packet_fate(k, seq, seq_field)
                        == PacketFate::Dropped ==> dropped_packets@.contains(k),
        {
            let diff: u16 = seq.wrapping_sub(*k);
            let ghost acked_before = acked_packets@;
            let ghost dropped_before = dropped_packets@;
            if diff == 0 {
                acked_packets.push(*k);
            } else if diff <= ACK_WINDOW {
                let field_acked = seq_field & (1u32 << ((diff - 1) as u32)) != 0;
                if field_acked {
                    acked_packets.push(*k);
                }
            } else if diff < SEQ_HORIZON {
                dropped_packets.push(*k);
            }
            proof {
                let idx = it.index();
                assert(it.seq().unref()[idx] == *k);
                assert(it.seq().unref().to_set().contains(*k));
                assert forall|i: int| 0 <= i < dropped_packets@.len() implies exists|j: int|
                    0 <= j < idx + 1 && *it.seq()[j] == #[trigger] dropped_packets@[i] by {
                    if i < dropped_before.len() {
                        let j = choose|j: int| 0 <= j < idx && *it.seq()[j] == dropped_before[i];
                        assert(*it.seq()[j] == dropped_packets@[i]);
                    } else {
                        assert(*it.seq()[idx] == dropped_packets@[i]);
                    }
                }
                assert(dropped_packets@.no_duplicates()) by {
                    if dropped_packets@.len() > dropped_before.len() {
                        assert forall|i: int| 0 <= i < dropped_before.len() implies dropped_before[i]
                            != *k by {
                            let j = choose|j: int|
                                0 <= j < idx && *it.seq()[j] == dropped_before[i];
                            assert(it.seq()[j] != it.seq()[idx]);
                        }
                    }
                }
                assert forall|j: int|
                    0 <= j < idx + 1 && packet_fate(*#[trigger] it.seq()[j], seq, seq_field)
                        == PacketFate::Acked implies acked_packets@.contains(*it.seq()[j]) by {
                    if j < idx {
                        let i = choose|i: int|
                            0 <= i < acked_before.len() && acked_before[i] == *it.seq()[j];
                        assert(acked_packets@[i] == *it.seq()[j]);
                    } else {
                        assert(acked_packets@[acked_packets@.len() - 1] == *k);
                    }
                }
                assert forall|j: int|
                    0 <= j < idx + 1 && packet_fate(*#[trigger] it.seq()[j], seq, seq_field)
                        == PacketFate::Dropped implies dropped_packets@.contains(
                    *it.seq()[j],
                ) by {
                    if j < idx {
                        let i = choose|i: int|
                            0 <= i < dropped_before.len() && dropped_before[i] == *it.seq()[j];
                        assert(dropped_packets@[i] == *it.seq()[j]);
                    } else {
                        assert(dropped_packets@[dropped_packets@.len() - 1] == *k);
                    }
                }
            }
        }
        let mut i: usize = 0;
        while i < acked_packets.len()
            invariant
                i <= acked_packets@.len(),
                forall|k: u16| #[trigger]
                    self.packets@.contains_key(k) <==> before.contains_key(k) && !acked_packets@.take(
                        i as int,
                    ).contains(k),
                forall|k: u16| #[trigger]
                    self.packets@.contains_key(k) ==> self.packets@[k] == before[k],
            decreases acked_packets@.len() - i,
        {
            let key = acked_packets[i];
            self.packets.remove(&key);
            proof {
                let next = acked_packets@.take(i + 1);
                assert(next =~= acked_packets@.take(i as int).push(key));
                assert forall|k: u16| #[trigger]
                    self.packets@.contains_key(k) <==> before.contains_key(k) && !next.contains(
                        k,
                    ) by {
                    if next.contains(k) && k != key {
                        let j = choose|j: int| 0 <= j < next.len() && next[j] == k;
                        assert(acked_packets@.take(i as int)[j] == k);
                    }
                    if acked_packets@.take(i as int).contains(k) {
                        let j = choose|j: int| 0 <= j < i && acked_packets@.take(i as int)[j] == k;
                        assert(next[j] == k);
                    }
                    if k == key {
                        assert(next[i as int] == k);
                    }
                }
            }
            i += 1;
        }
        proof {
            assert(acked_packets@.take(i as int) =~= acked_packets@);
        }
        let ghost after_acked = self.packets@;
        let mut dropped: Vec<(u16, Packet)> = Vec::new();
        let mut j: usize = 0;
        while j < dropped_packets.len()
            invariant
                j <= dropped_packets@.len(),
                dropped@.len() == j,
                dropped_packets@.no_duplicates(),
                forall|n: int|
                    0 <= n < dropped_packets@.len() ==> after_acked.contains_key(
                        #[trigger] dropped_packets@[n],
                    ),
                forall|k: u16| #[trigger]
                    self.packets@.contains_key(k) <==> after_acked.contains_key(k)
                        && !dropped_packets@.take(j as int).contains(k),
                forall|k: u16| #[trigger]
                    self.packets@.contains_key(k) ==> self.packets@[k] == after_acked[k],
                forall|n: int|
                    0 <= n < j ==> (#[trigger] dropped@[n]).0 == dropped_packets@[n] && dropped@[n].1
                        == after_acked[dropped_packets@[n]],
            decreases dropped_packets@.len() - j,
        {
            let key = dropped_packets[j];
            proof {
                if dropped_packets@.take(j as int).contains(key) {
                    let n = choose|n: int|
                        0 <= n < j && dropped_packets@.take(j as int)[n] == key;
                    assert(dropped_packets@[n] == dropped_packets@[j as int]);
                }
            }
            let removed = self.packets.remove(&key);
            assert(removed is Some);
            dropped.push((key, removed.unwrap()));
            proof {
                let next = dropped_packets@.take(j + 1);
                assert(next =~= dropped_packets@.take(j as int).push(key));
                assert forall|k: u16| #[trigger]
                    self.packets@.contains_key(k) <==> after_acked.contains_key(k)
                        && !next.contains(k) by {
                    if next.contains(k) && k != key {
                        let n = choose|n: int| 0 <= n < next.len() && next[n] == k;
                        assert(dropped_packets@.take(j as int)[n] == k);
                    }
                    if dropped_packets@.take(j as int).contains(k) {
                        let n = choose|n: int|
                            0 <= n < j && dropped_packets@.take(j as int)[n] == k;
                        assert(next[n] == k);
                    }
                    if k == key {
                        assert(next[j as int] == k);
                    }
                }
            }
            j += 1;
        }
        proof {
            assert(dropped_packets@.take(j as int) =~= dropped_packets@);
            let pending = with_fate(old(self)@, seq, seq_field, PacketFate::Pending);
            let lost = with_fate(old(self)@, seq, seq_field, PacketFate::Dropped);
            assert(self@ =~= pending) by {
                assert forall|k: u16| self@.contains_key(k) <==> pending.contains_key(k) by {
                    if acked_packets@.contains(k) {
                        let n = choose|n: int|
                            0 <= n < acked_packets@.len() && acked_packets@[n] == k;
                    }
                    if dropped_packets@.contains(k) {
                        let n = choose|n: int|
                            0 <= n < dropped_packets@.len() && dropped_packets@[n] == k;
                    }
                }
            }
            assert forall|n: int| 0 <= n < dropped@.len() implies lost.contains_key(
                #[trigger] dropped@[n].0,
            ) && dropped@[n].1@ == lost[dropped@[n].0] by {
                assert(after_acked.contains_key(dropped_packets@[n]));
            }
            assert forall|k: u16| #[trigger] lost.contains_key(k) implies exists|n: int|
                0 <= n < dropped@.len() && dropped@[n].0 == k by {
                assert(dropped_packets@.contains(k));
                let n = choose|n: int|
                    0 <= n < dropped_packets@.len() && dropped_packets@[n] == k;
                assert(dropped@[n].0 == k);
            }
        }
        dropped
    }

    proof fn lemma_view_dom(&self)
        ensures
            self@.dom() == self.packets@.dom(),
            self@.dom().finite(),
            self@.len() == self.packets@.len(),
    {
        assert(self@.dom() =~= self.packets@.dom());
    }
}

/// The fate of a packet under a report whose field is empty goes by its
/// distance behind the reported sequence number alone: the reported packet is
/// acknowledged, the 32 before it stay pending, those up to the horizon
/// behind them are dropped, and the rest stay pending.
pub proof fn lemma_fate_under_empty_field(k: u16, seq: u16)
    ensures
        packet_fate(k, seq, 0) == if seq_diff(seq, k) == 0 {
            PacketFate::Acked
        } else if ACK_WINDOW < seq_diff(seq, k) < SEQ_HORIZON {
            PacketFate::Dropped
        } else {
            PacketFate::Pending
        },
{
    let diff = seq_diff(seq, k);
    if 0 < diff <= ACK_WINDOW {
        let k = (diff - 1) as u32;
        assert(0u32 & (1u32 << k) == 0) by (bit_vector);
    }
}

/// A report made from a peer's summary acknowledges exactly the packets that
/// the summary tells of: the head and the recorded ones among the 32 before
/// it.
pub proof fn lemma_report_acknowledges_the_recorded(s: AckSummary, k: u16)
    requires
        s.initialized,
    ensures
        packet_fate(k, s.last_seq, s.field) == PacketFate::Acked <==> records(s, k),
{
}

/// A packet reported as the last one received leaves the waiting packets,
/// whatever the field says.
pub proof fn lemma_reported_packet_leaves(m: Map<u16, PacketView>, seq: u16, field: u32)
    ensures
        !with_fate(m, seq, field, PacketFate::Pending).contains_key(seq),
        !with_fate(m, seq, field, PacketFate::Dropped).contains_key(seq),
{
}

/// After a report, every packet that still waits is either inside the window
/// of 32 before the reported sequence number, unconfirmed, or was sent after
/// the reported one.
pub proof fn lemma_pending_within_window(m: Map<u16, PacketView>, seq: u16, field: u32, k: u16)
    requires
        with_fate(m, seq, field, PacketFate::Pending).contains_key(k),
    ensures
        m.contains_key(k),
        1 <= seq_diff(seq, k) <= ACK_WINDOW || seq_diff(seq, k) >= SEQ_HORIZON,
        seq_diff(seq, k) <= ACK_WINDOW ==> field & ack_bit(seq_diff(seq, k)) == 0,
{
}

/// A report sorts the waiting packets into three disjoint groups that
/// together are all of them.
pub proof fn lemma_fates_partition(m: Map<u16, PacketView>, seq: u16, field: u32, k: u16)
    requires
        m.contains_key(k),
    ensures
        with_fate(m, seq, field, PacketFate::Acked).contains_key(k) || with_fate(
            m,
            seq,
            field,
            PacketFate::Dropped,
        ).contains_key(k) || with_fate(m, seq, field, PacketFate::Pending).contains_key(k),
        !(with_fate(m, seq, field, PacketFate::Dropped).contains_key(k) && with_fate(
            m,
            seq,
            field,
            PacketFate::Pending,
        ).contains_key(k)),
{
}

} // verus!
