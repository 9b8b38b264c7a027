//! What passes between the tick side and the socket worker, and what each
//! side decides.

use crate::address::PeerAddr;
use crate::connection::{ConnectionState, ConnectionView, NetConnection};
use crate::packet::datagram::{Packet, PacketView};
use crate::socket_state::{transmission_views, RegistryView, SocketState};
use vstd::prelude::*;

verus! {

/// Mathematical model of an [`InternalSocketEvent`].
pub enum CommandView<E> {
    SendEvents { target: PeerAddr, events: Seq<E> },
    Stop,
}

/// What the tick side asks of the socket worker.
pub enum InternalSocketEvent<E> {
    /// Send these events to the peer at `target`, in order.
    SendEvents { target: PeerAddr, events: Vec<E> },
    /// Carry out nothing further, and end.
    Stop,
}

impl<E> View for InternalSocketEvent<E> {
    type V = CommandView<E>;

    open spec fn view(&self) -> CommandView<E> {
        match self {
            InternalSocketEvent::SendEvents { target, events } => CommandView::SendEvents {
                target: *target,
                events: events@,
            },
            InternalSocketEvent::Stop => CommandView::Stop,
        }
    }
}

/// The views of `commands`, in order.
pub open spec fn command_views<E>(commands: Seq<InternalSocketEvent<E>>) -> Seq<CommandView<E>> {
    Seq::new(commands.len(), |i: int| commands[i]@)
}

/// What a tick asks of the worker for the connection `c`: to send the queued
/// events while the state permits sending, to stop once the connection is
/// disconnected, and nothing while it is disconnecting.
pub open spec fn command_for<E>(c: ConnectionView<E>) -> Option<CommandView<E>> {
    if c.state.permits_sending() {
        Some(CommandView::SendEvents { target: c.target, events: c.send_buffer })
    } else if c.state == ConnectionState::Disconnected {
        Some(CommandView::Stop)
    } else {
        None
    }
}

/// The connection `c` after a tick has handed on its queued events.
pub open spec fn after_command<E>(c: ConnectionView<E>) -> ConnectionView<E> {
    if c.state.permits_sending() {
        ConnectionView { send_buffer: Seq::empty(), ..c }
    } else {
        c
    }
}

/// What a tick asks of the worker for the connections of `peers`, in order.
pub open spec fn commands_for<E>(
    connections: Map<PeerAddr, ConnectionView<E>>,
    peers: Seq<PeerAddr>,
) -> Seq<CommandView<E>>
    decreases peers.len(),
{
    if peers.len() == 0 {
        Seq::empty()
    } else {
        let before = commands_for(connections, peers.drop_last());
        match command_for(connections[peers.last()]) {
            Some(command) => before.push(command),
            None => before,
        }
    }
}

impl<E> NetConnection<E> {
    /// What this tick asks of the worker for this connection. Events handed
    /// on leave the send buffer.
    pub fn next_command(&mut self) -> (command: Option<InternalSocketEvent<E>>)
        ensures
            final(self)@ == after_command(old(self)@),
            match command {
                Some(c) => command_for(old(self)@) == Some(c@),
                None => command_for(old(self)@) is None,
            },
    {
        if self.state.can_send() {
            let target = self.target;
            let events = self.send_buffer_early_read();
            Some(InternalSocketEvent::SendEvents { target, events })
        } else if self.state == ConnectionState::Disconnected {
            Some(InternalSocketEvent::Stop)
        } else {
            None
        }
    }
}

/// The packets that carry `payloads` to `target`, in order.
pub open spec fn payload_packets(target: PeerAddr, payloads: Seq<Vec<u8>>) -> Seq<PacketView> {
    Seq::new(payloads.len(), |i: int| PacketView { addr: target, payload: payloads[i]@ })
}

impl<E> RegistryView<E> {
    /// The registry after each of `packets` has been sent, in order.
    pub open spec fn after_sends(self, packets: Seq<PacketView>) -> RegistryView<E>
        decreases packets.len(),
    {
        if packets.len() == 0 {
            self
        } else {
            self.after_sends(packets.drop_last()).after_send(packets.last())
        }
    }

    /// What is transmitted to send each of `packets`, in order.
    pub open spec fn transmissions_for_all(self, packets: Seq<PacketView>) -> Seq<
        (PeerAddr, Seq<u8>),
    >
        decreases packets.len(),
    {
        if packets.len() == 0 {
            Seq::empty()
        } else {
            self.transmissions_for_all(packets.drop_last()) + self.after_sends(
                packets.drop_last(),
            ).transmissions_for(packets.last())
        }
    }

    /// The registry after the worker has carried out `commands`, none of
    /// which is a stop, in order.
    pub open spec fn after_commands(self, commands: Seq<CommandView<Vec<u8>>>) -> RegistryView<E>
        decreases commands.len(),
    {
        if commands.len() == 0 {
            self
        } else {
            let r = self.after_commands(commands.drop_last());
            match commands.last() {
                CommandView::SendEvents { target, events } => r.after_sends(
                    payload_packets(target, events),
                ),
                CommandView::Stop => r,
            }
        }
    }

    /// What the worker transmits to carry out `commands`, none of which is
    /// a stop, in order.
    pub open spec fn transmissions_for_commands(self, commands: Seq<CommandView<Vec<u8>>>) -> Seq<
        (PeerAddr, Seq<u8>),
    >
        decreases commands.len(),
    {
        if commands.len() == 0 {
            Seq::empty()
        } else {
            let r = self.after_commands(commands.drop_last());
            let before = self.transmissions_for_commands(commands.drop_last());
            match commands.last() {
                CommandView::SendEvents { target, events } => before + r.transmissions_for_all(
                    payload_packets(target, events),
                ),
                CommandView::Stop => before,
            }
        }
    }
}

/// `n` is the place of the first stop among `commands`, or their number
/// where none of them is a stop.
pub open spec fn is_first_stop<E>(commands: Seq<CommandView<E>>, n: int) -> bool {
    &&& 0 <= n <= commands.len()
    &&& forall|i: int| 0 <= i < n ==> #[trigger] commands[i] is SendEvents
    &&& n < commands.len() ==> commands[n] is Stop
}

/// The place of the first stop is unique: a batch has one number of
/// commands that are carried out.
pub proof fn lemma_first_stop_is_unique<E>(commands: Seq<CommandView<E>>, n: int, m: int)
    requires
        is_first_stop(commands, n),
        is_first_stop(commands, m),
    ensures
        n == m,
{
    if n < m {
        assert(commands[n] is SendEvents);
    }
    if m < n {
        assert(commands[m] is SendEvents);
    }
}

/// Commands queued before a stop are all carried out: where the commands
/// are `sends` followed by a stop and anything after it, and none of `sends`
/// is a stop, the first stop is at the end of `sends`.
pub proof fn lemma_commands_before_stop_are_carried_out<E>(
    sends: Seq<CommandView<E>>,
    rest: Seq<CommandView<E>>,
)
    requires
        forall|i: int| 0 <= i < sends.len() ==> #[trigger] sends[i] is SendEvents,
    ensures
        is_first_stop(sends + seq![CommandView::<E>::Stop] + rest, sends.len() as int),
        (sends + seq![CommandView::<E>::Stop] + rest).take(sends.len() as int) == sends,
{
    let all = sends + seq![CommandView::<E>::Stop] + rest;
    assert forall|i: int| 0 <= i < sends.len() implies #[trigger] all[i] is SendEvents by {
        assert(all[i] == sends[i]);
    }
    assert(all[sends.len() as int] == CommandView::<E>::Stop);
    assert(all.take(sends.len() as int) =~= sends);
}

/// What the worker does with one batch of commands.
pub struct Batch {
    /// The datagrams to transmit, in order, each with its destination.
    pub transmissions: Vec<(PeerAddr, Vec<u8>)>,
    /// The number of commands carried out: those before the first stop.
    pub carried_out: usize,
    /// Whether a stop was met, so that the worker ends after transmitting.
    pub stop: bool,
}

impl<E> SocketState<E> {
    /// Sends each of `payloads` to `target`, in order. Returns the datagrams
    /// to transmit, in order, each with its destination.
    pub fn send_events(&mut self, target: PeerAddr, payloads: &Vec<Vec<u8>>) -> (out: Vec<
        (PeerAddr, Vec<u8>),
    >)
        requires
            old(self).wf(),
        ensures
            final(self).wf(),
            final(self)@ == old(self)@.after_sends(payload_packets(target, payloads@)),
            transmission_views(out@) == old(self)@.transmissions_for_all(
                payload_packets(target, payloads@),
            ),
    {
        let ghost start = self@;
        let ghost packets = payload_packets(target, payloads@);
        let mut out: Vec<(PeerAddr, Vec<u8>)> = Vec::new();
        let mut i: usize = 0;
        proof {
            assert(packets.take(0) =~= Seq::<PacketView>::empty());
            assert(transmission_views(out@) =~= start.transmissions_for_all(packets.take(0)));
        }
        while i < payloads.len()
            invariant
                i <= payloads@.len(),
                packets == payload_packets(target, payloads@),
                self.wf(),
                self@ == start.after_sends(packets.take(i as int)),
                transmission_views(out@) == start.transmissions_for_all(packets.take(i as int)),
            decreases payloads@.len() - i,
        {
            let payload = payloads[i].clone();
            let ghost before = out@;
            let mut datagrams = self.send(Packet::new(target, payload));
            let ghost sent = datagrams@;
            out.append(&mut datagrams);
            proof {
                let next = packets.take(i + 1);
                assert(next.drop_last() =~= packets.take(i as int));
                assert(next.last() == packets[i as int]);
                assert(transmission_views(out@) =~= transmission_views(before)
                    + transmission_views(sent));
            }
            i += 1;
        }
        proof {
            assert(packets.take(i as int) =~= packets);
        }
        out
    }

    /// Carries out one batch of commands for the worker, in order, up to the
    /// first stop: every command before it is carried out, none after it.
    pub fn run_commands(&mut self, commands: Vec<InternalSocketEvent<Vec<u8>>>) -> (batch: Batch)
        requires
            old(self).wf(),
        ensures
            final(self).wf(),
            is_first_stop(command_views(commands@), batch.carried_out as int),
            batch.stop == (batch.carried_out < commands@.len()),
            final(self)@ == old(self)@.after_commands(
                command_views(commands@).take(batch.carried_out as int),
            ),
            transmission_views(batch.transmissions@) == old(self)@.transmissions_for_commands(
                command_views(commands@).take(batch.carried_out as int),
            ),
    {
        let ghost start = self@;
        let ghost views = command_views(commands@);
        let mut out: Vec<(PeerAddr, Vec<u8>)> = Vec::new();
        let mut i: usize = 0;
        let mut stop = false;
        proof {
            assert(views.take(0) =~= Seq::<CommandView<Vec<u8>>>::empty());
            assert(transmission_views(out@) =~= start.transmissions_for_commands(views.take(0)));
        }
        while i < commands.len() && !stop
            invariant
                i <= commands@.len(),
                views == command_views(commands@),
                self.wf(),
                forall|j: int| 0 <= j < i ==> #[trigger] views[j] is SendEvents,
                stop ==> i < commands@.len() && views[i as int] is Stop,
                self@ == start.after_commands(views.take(i as int)),
                transmission_views(out@) == start.transmissions_for_commands(
                    views.take(i as int),
                ),
            decreases commands@.len() - i + if stop { 0int } else { 1 },
        {
            match &commands[i] {
                InternalSocketEvent::SendEvents { target, events } => {
                    let ghost before = out@;
                    let mut datagrams = self.send_events(*target, events);
                    let ghost sent = datagrams@;
                    out.append(&mut datagrams);
                    proof {
                        let next = views.take(i + 1);
                        assert(next.drop_last() =~= views.take(i as int));
                        assert(next.last() == views[i as int]);
                        assert(transmission_views(out@) =~= transmission_views(before)
                            + transmission_views(sent));
                    }
                    i += 1;
                },
                InternalSocketEvent::Stop => {
                    stop = true;
                },
            }
        }
        Batch { transmissions: out, carried_out: i, stop }
    }
}

} // verus!
