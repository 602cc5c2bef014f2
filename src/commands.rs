use crate::ballot::{Ballot, NodeId, Slot};
use crate::value::bytes_of;
use bytes::Bytes;
use vstd::prelude::*;

verus! {

/// A slot, the ballot a value was accepted or decided at, and the value.
pub type SlottedValue = (Slot, Ballot, Bytes);

/// The seven messages that replicas exchange.
#[derive(PartialEq, Eq, Debug)]
pub enum Command {
    /// A client value to replicate, or one forwarded to the leader.
    Proposal(Bytes),
    /// Phase 1a.
    Prepare(Ballot),
    /// Phase 1b: the promising node, the ballot and the values it knows.
    Promise(NodeId, Ballot, Vec<SlottedValue>),
    /// Phase 2a.
    Accept(Slot, Ballot, Bytes),
    /// The rejecting node, the proposed ballot and the one that preempted it.
    Reject(NodeId, Ballot, Ballot),
    /// Phase 2b: the accepting node, the slot and the ballot.
    Accepted(NodeId, Slot, Ballot),
    /// A decided slot.
    Resolution(Slot, Ballot, Bytes),
}

/// The model of a message: values as byte sequences.
pub enum CommandView {
    Proposal(Seq<u8>),
    Prepare(Ballot),
    Promise(NodeId, Ballot, Seq<(Slot, Ballot, Seq<u8>)>),
    Accept(Slot, Ballot, Seq<u8>),
    Reject(NodeId, Ballot, Ballot),
    Accepted(NodeId, Slot, Ballot),
    Resolution(Slot, Ballot, Seq<u8>),
}

pub open spec fn slotted_view(v: SlottedValue) -> (Slot, Ballot, Seq<u8>) {
    (v.0, v.1, bytes_of(v.2))
}

pub open spec fn command_view(c: Command) -> CommandView {
    match c {
        Command::Proposal(v) => CommandView::Proposal(bytes_of(v)),
        Command::Prepare(b) => CommandView::Prepare(b),
        Command::Promise(n, b, acc) => CommandView::Promise(
            n,
            b,
            Seq::new(acc@.len(), |i: int| slotted_view(acc@[i])),
        ),
        Command::Accept(s, b, v) => CommandView::Accept(s, b, bytes_of(v)),
        Command::Reject(n, p, q) => CommandView::Reject(n, p, q),
        Command::Accepted(n, s, b) => CommandView::Accepted(n, s, b),
        Command::Resolution(s, b, v) => CommandView::Resolution(s, b, bytes_of(v)),
    }
}

/// The model of a sequence of addressed messages.
pub open spec fn messages_view(m: Seq<(NodeId, Command)>) -> Seq<(NodeId, CommandView)> {
    Seq::new(m.len(), |i: int| (m[i].0, command_view(m[i].1)))
}

/// The model of a sequence of applied decisions.
pub open spec fn decisions_view(d: Seq<(Slot, Bytes)>) -> Seq<(Slot, Seq<u8>)> {
    Seq::new(d.len(), |i: int| (d[i].0, bytes_of(d[i].1)))
}

/// `c` sent to each peer, in the order of the peers.
pub open spec fn broadcast(peers: Seq<NodeId>, c: CommandView) -> Seq<(NodeId, CommandView)> {
    Seq::new(peers.len(), |i: int| (peers[i], c))
}

/// Each of `cs` in turn, sent to each peer.
pub open spec fn broadcast_all(peers: Seq<NodeId>, cs: Seq<CommandView>) -> Seq<(NodeId, CommandView)>
    decreases cs.len(),
{
    if cs.len() == 0 {
        Seq::empty()
    } else {
        broadcast_all(peers, cs.drop_last()) + broadcast(peers, cs.last())
    }
}

/// What one inbound message makes the replica do: the messages to send, in
/// order, and the decisions to apply to the state machine, in slot order.
pub struct Output {
    pub messages: Vec<(NodeId, Command)>,
    pub decisions: Vec<(Slot, Bytes)>,
    /// Client values turned away because the proposal queue is full.
    pub refused: Vec<Bytes>,
}

impl Output {
    pub open spec fn sent(self) -> Seq<(NodeId, CommandView)> {
        messages_view(self.messages@)
    }

    pub open spec fn applied(self) -> Seq<(Slot, Seq<u8>)> {
        decisions_view(self.decisions@)
    }

    pub open spec fn turned_away(self) -> Seq<Seq<u8>> {
        Seq::new(self.refused@.len(), |i: int| bytes_of(self.refused@[i]))
    }

    pub fn none() -> (o: Output)
        ensures
            o.sent() == Seq::<(NodeId, CommandView)>::empty(),
            o.applied() == Seq::<(Slot, Seq<u8>)>::empty(),
            o.refused@.len() == 0,
    {
        let o = Output { messages: Vec::new(), decisions: Vec::new(), refused: Vec::new() };
        proof {
            assert(o.sent() =~= Seq::<(NodeId, CommandView)>::empty());
            assert(o.applied() =~= Seq::<(Slot, Seq<u8>)>::empty());
        }
        o
    }
}

} // verus!
