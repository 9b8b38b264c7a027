//! What this side has seen of a peer's sequence numbers.

use vstd::prelude::*;

verus! {

/// Distances at or beyond this bound mean that the first sequence number lies
/// behind the second one under wraparound.
pub const SEQ_HORIZON: u16 = 32000;

/// Width of the acknowledgment window: the number of sequence numbers before
/// the head that the bitfield covers.
pub const ACK_WINDOW: u16 = 32;

/// Distance from `from` forward to `to` on the 16-bit sequence circle.
pub open spec fn seq_diff(to: u16, from: u16) -> u16 {
    if to >= from {
        (to - from) as u16
    } else {
        (to - from + 0x1_0000) as u16
    }
}

/// The bit of an acknowledgment field that stands for the sequence number
/// `distance` places before the head, for `1 <= distance <= 32`.
pub open spec fn ack_bit(distance: u16) -> u32 {
    1u32 << ((distance - 1) as u32)
}

/// The field after the head has advanced by `distance`, for
/// `1 <= distance <= 32`: every recorded bit moves up by `distance` and the
/// previous head takes bit `distance - 1`.
pub open spec fn shifted_field(field: u32, distance: u16) -> u32 {
    ((field << 1u32) | 1u32) << ((distance - 1) as u32)
}

/// Mathematical model of [`ExternalAcks`].
pub struct AckSummary {
    pub last_seq: u16,
    pub field: u32,
    pub initialized: bool,
}

/// The summary after sequence number `seq` has arrived.
pub open spec fn ack_step(s: AckSummary, seq: u16) -> AckSummary {
    let pos_diff = seq_diff(seq, s.last_seq);
    let neg_diff = seq_diff(s.last_seq, seq);
    if !s.initialized {
        AckSummary { last_seq: seq, field: 0, initialized: true }
    } else if pos_diff == 0 {
        s
    } else if pos_diff < SEQ_HORIZON {
        AckSummary {
            last_seq: seq,
            field: if pos_diff <= ACK_WINDOW {
                shifted_field(s.field, pos_diff)
            } else {
                0
            },
            initialized: true,
        }
    } else if neg_diff <= ACK_WINDOW {
        AckSummary { last_seq: s.last_seq, field: s.field | ack_bit(neg_diff), initialized: true }
    } else {
        s
    }
}

/// A peer's acknowledgment information: the latest sequence number seen from
/// it, and a bitfield of the 32 sequence numbers before that one.
#[derive(Debug)]
pub struct ExternalAcks {
    pub last_seq: u16,
    pub field: u32,
    initialized: bool,
}

impl View for ExternalAcks {
    type V = AckSummary;

    closed spec fn view(&self) -> AckSummary {
        AckSummary { last_seq: self.last_seq, field: self.field, initialized: self.initialized }
    }
}

impl ExternalAcks {
    pub fn new() -> (acks: ExternalAcks)
        ensures
            acks@ == (AckSummary { last_seq: 0, field: 0, initialized: false }),
    {
        ExternalAcks { last_seq: 0, field: 0, initialized: false }
    }

    /// The latest sequence number seen from the peer.
    pub fn last_seq(&self) -> (seq: u16)
        ensures
            seq == self@.last_seq,
    {
        self.last_seq
    }

    /// The bitfield of the 32 sequence numbers before the latest one.
    pub fn field(&self) -> (field: u32)
        ensures
            field == self@.field,
    {
        self.field
    }

    /// Records the arrival of sequence number `seq_num`.
    pub fn ack(&mut self, seq_num: u16)
        ensures
            final(self)@ == ack_step(old(self)@, seq_num),
    {
        if !self.initialized {
            self.last_seq = seq_num;
            self.field = 0;
            self.initialized = true;
            return ;
        }
        let pos_diff: u16 = seq_num.wrapping_sub(self.last_seq);
        let neg_diff: u16 = self.last_seq.wrapping_sub(seq_num);
        if pos_diff == 0 {
            return ;
        }
        if pos_diff < SEQ_HORIZON {
            if pos_diff <= ACK_WINDOW {
                self.field = ((self.field << 1u32) | 1u32) << ((pos_diff - 1) as u32);
            } else {
                self.field = 0;
            }
            self.last_seq = seq_num;
        } else if neg_diff <= ACK_WINDOW {
            self.field = self.field | (1u32 << ((neg_diff - 1) as u32));
        }
    }
}

/// Whether the summary `s` says that sequence number `q` has arrived: `q` is
/// the head, or one of the 32 before it whose bit is set.
pub open spec fn records(s: AckSummary, q: u16) -> bool {
    let behind = seq_diff(s.last_seq, q);
    s.initialized && (behind == 0 || (behind <= ACK_WINDOW && s.field & ack_bit(behind) != 0))
}

/// Whether the summary `s`, once `seq` has arrived, can still tell of `q`:
/// `q` is the new head or one of the 32 before it.
pub open spec fn in_window_after(s: AckSummary, seq: u16, q: u16) -> bool {
    seq_diff(ack_step(s, seq).last_seq, q) <= ACK_WINDOW
}

/// The sequence number `distance` places before `head` on the 16-bit circle.
pub open spec fn seq_before(head: u16, distance: u16) -> u16 {
    seq_diff(head, distance)
}

/// Recording a sequence number a second time changes nothing: the summary
/// after two arrivals of `seq` in a row is the summary after the first.
pub proof fn lemma_ack_idempotent(s: AckSummary, seq: u16)
    ensures
        ack_step(ack_step(s, seq), seq) == ack_step(s, seq),
{
    let neg_diff = seq_diff(s.last_seq, seq);
    if s.initialized && seq_diff(seq, s.last_seq) >= SEQ_HORIZON && neg_diff <= ACK_WINDOW {
        let f = s.field;
        let b = ack_bit(neg_diff);
        assert((f | b) | b == f | b) by (bit_vector);
    }
}

/// A duplicate of the current head leaves the head and the field as they are.
pub proof fn lemma_ack_duplicate_head(s: AckSummary)
    requires
        s.initialized,
    ensures
        ack_step(s, s.last_seq) == s,
{
}

/// A sequence number that arrives late, `distance` places behind the head
/// with `1 <= distance <= 32`, sets bit `distance - 1` of the field and does
/// not move the head.
pub proof fn lemma_ack_late_arrival(s: AckSummary, distance: u16)
    requires
        s.initialized,
        1 <= distance <= ACK_WINDOW,
    ensures
        ack_step(s, seq_before(s.last_seq, distance)).last_seq == s.last_seq,
        ack_step(s, seq_before(s.last_seq, distance)).field == s.field | (1u32 << ((distance
            - 1) as u32)),
        ack_step(s, seq_before(s.last_seq, distance)).initialized,
{
}

/// An arrival is recorded, unless it lies too far behind the head to be
/// told of.
pub proof fn lemma_arrival_is_recorded(s: AckSummary, seq: u16)
    requires
        in_window_after(s, seq, seq),
    ensures
        records(ack_step(s, seq), seq),
{
    let pos_diff = seq_diff(seq, s.last_seq);
    let neg_diff = seq_diff(s.last_seq, seq);
    if s.initialized && pos_diff >= SEQ_HORIZON && neg_diff <= ACK_WINDOW {
        let f = s.field;
        let k = (neg_diff - 1) as u32;
        assert((f | (1u32 << k)) & (1u32 << k) != 0) by (bit_vector)
            requires
                k < 32,
        ;
    }
}

/// What was recorded stays recorded for as long as it lies within the 32
/// before the head.
pub proof fn lemma_recorded_stays(s: AckSummary, seq: u16, q: u16)
    requires
        records(s, q),
        in_window_after(s, seq, q),
    ensures
        records(ack_step(s, seq), q),
{
    let pos_diff = seq_diff(seq, s.last_seq);
    let neg_diff = seq_diff(s.last_seq, seq);
    let behind = seq_diff(s.last_seq, q);
    let f = s.field;
    if pos_diff == 0 {
    } else if pos_diff < SEQ_HORIZON {
        let after = seq_diff(seq, q);
        assert(after == behind + pos_diff);
        let p = (pos_diff - 1) as u32;
        let a = (after - 1) as u32;
        if behind == 0 {
            assert((((f << 1u32) | 1u32) << p) & (1u32 << a) != 0) by (bit_vector)
                requires
                    a == p,
                    p < 32,
            ;
        } else {
            let b = (behind - 1) as u32;
            assert((((f << 1u32) | 1u32) << p) & (1u32 << a) != 0) by (bit_vector)
                requires
                    f & (1u32 << b) != 0,
                    a == b + p + 1,
                    a < 32,
            ;
        }
    } else if neg_diff <= ACK_WINDOW {
        if behind != 0 {
            let b = (behind - 1) as u32;
            let k = (neg_diff - 1) as u32;
            assert((f | (1u32 << k)) & (1u32 << b) != 0) by (bit_vector)
                requires
                    f & (1u32 << b) != 0,
                    b < 32,
                    k < 32,
            ;
        }
    }
}

/// Nothing is recorded but what arrived: what the summary tells of after
/// `seq` has arrived is `seq` itself or was told of before.
pub proof fn lemma_only_arrivals_are_recorded(s: AckSummary, seq: u16, q: u16)
    requires
        records(ack_step(s, seq), q),
    ensures
        q == seq || records(s, q),
{
    let pos_diff = seq_diff(seq, s.last_seq);
    let neg_diff = seq_diff(s.last_seq, seq);
    let f = s.field;
    let after = seq_diff(ack_step(s, seq).last_seq, q);
    if !s.initialized {
        if after != 0 {
            let a = (after - 1) as u32;
            assert(0u32 & (1u32 << a) == 0) by (bit_vector);
        }
    } else if pos_diff == 0 {
    } else if pos_diff < SEQ_HORIZON {
        if after != 0 {
            let a = (after - 1) as u32;
            if pos_diff <= ACK_WINDOW {
                let p = (pos_diff - 1) as u32;
                if after < pos_diff {
                    assert((((f << 1u32) | 1u32) << p) & (1u32 << a) == 0) by (bit_vector)
                        requires
                            a < p,
                            p < 32,
                    ;
                } else if after > pos_diff {
                    let b = (after - pos_diff - 1) as u32;
                    assert(f & (1u32 << b) != 0) by (bit_vector)
                        requires
                            (((f << 1u32) | 1u32) << p) & (1u32 << a) != 0,
                            a == b + p + 1,
                            a < 32,
                    ;
                    assert(seq_diff(s.last_seq, q) == after - pos_diff);
                } else {
                    assert(q == s.last_seq);
                }
            } else {
                assert(0u32 & (1u32 << a) == 0) by (bit_vector);
            }
        }
    } else if neg_diff <= ACK_WINDOW {
        if after != 0 && q != seq {
            let a = (after - 1) as u32;
            let k = (neg_diff - 1) as u32;
            assert(f & (1u32 << a) != 0) by (bit_vector)
                requires
                    (f | (1u32 << k)) & (1u32 << a) != 0,
                    a != k,
                    a < 32,
                    k < 32,
            ;
        }
    }
}

} // verus!
