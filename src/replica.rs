use crate::acceptor::{AcceptResponse, AcceptorView, PrepareResponse};
use crate::ballot::{ballot_grew, reaches, Ballot, NodeId, Slot};
use crate::commands::{
    broadcast, broadcast_all, command_view, decisions_view, messages_view, slotted_view, Command,
    CommandView, Output, SlottedValue,
};
use crate::config::{majority, Configuration};
use crate::proposer::{Proposer, ProposerStatus, ProposerView};
use crate::value::{bytes_of, is_noop, noop, pair_view};
use crate::window::{SlotKind, SlotModel, SlotWindow, WindowView};
use bytes::Bytes;
use vstd::prelude::*;

verus! {

/// The model of a replica.
pub struct ReplicaView {
    pub node: NodeId,
    pub peers: Seq<NodeId>,
    pub proposer: ProposerView,
    pub window: WindowView,
    /// Client values waiting for a slot or for a leader to forward them to.
    pub queue: Seq<Seq<u8>>,
}

/// Some message of `m` is an Accept.
pub open spec fn has_accept(m: Seq<(NodeId, CommandView)>) -> bool {
    exists|i: int| 0 <= i < m.len() && (#[trigger] m[i]).1 is Accept
}

/// Decisions applied in strictly ascending slot order, each within
/// `[lo, hi)`, none of them a no-op.
pub open spec fn applied_in_order(d: Seq<(Slot, Seq<u8>)>, lo: int, hi: int) -> bool {
    &&& forall|i: int, j: int| 0 <= i < j < d.len() ==> (#[trigger] d[i]).0 < (#[trigger] d[j]).0
    &&& forall|i: int| 0 <= i < d.len() ==> lo <= (#[trigger] d[i]).0 < hi && d[i].1.len() > 0
}

/// The decisions of the first `k` slots of `w`, in slot order.
pub open spec fn ready_decisions(w: WindowView, k: nat) -> Seq<(Slot, Seq<u8>)> {
    Seq::new(k, |i: int| ((w.lo + i) as Slot, w.slots[i]->Open_0.resolved->Some_0.1))
}

/// `d` without its no-op values.
pub open spec fn without_noops(d: Seq<(Slot, Seq<u8>)>) -> Seq<(Slot, Seq<u8>)>
    decreases d.len(),
{
    if d.len() == 0 {
        Seq::empty()
    } else {
        let rest = without_noops(d.drop_last());
        if d.last().1.len() > 0 {
            rest.push(d.last())
        } else {
            rest
        }
    }
}

proof fn lemma_without_noops_ordered(w: WindowView, k: nat)
    requires
        w.lo + k <= u64::MAX,
    ensures
        applied_in_order(without_noops(ready_decisions(w, k)), w.lo as int, (w.lo + k) as int),
    decreases k,
{
    if k > 0 {
        lemma_without_noops_ordered(w, (k - 1) as nat);
        assert(ready_decisions(w, k).drop_last() =~= ready_decisions(w, (k - 1) as nat));
    }
}

proof fn lemma_scan_stops(w: WindowView, b: Ballot, n: nat, m: nat)
    requires
        n <= m,
        prepare_scan(w, b, n).rejected is Some,
    ensures
        prepare_scan(w, b, m) == prepare_scan(w, b, n),
    decreases m - n,
{
    if m > n {
        lemma_scan_stops(w, b, n, (m - 1) as nat);
    }
}

/// `fin` is `mid` once the decided prefix of its window is applied, and
/// `applied` holds those decisions, in slot order, no-ops left out.
pub open spec fn settled(mid: ReplicaView, fin: ReplicaView, applied: Seq<(Slot, Seq<u8>)>) -> bool {
    exists|k: nat| {
        &&& mid.window.ready_count(k)
        &&& fin == ReplicaView { window: drained(mid.window, k), ..mid }
        &&& applied == without_noops(ready_decisions(mid.window, k))
    }
}

/// Slot `sv.0` learns the value `sv.2` at ballot `sv.1` from a promise: a
/// hole gets an acceptor first; decided and truncated slots keep theirs.
pub open spec fn seed(w: WindowView, sv: (Slot, Ballot, Seq<u8>)) -> WindowView {
    let s = sv.0 as int;
    let w1 = w.extended(s);
    match w.kind(s) {
        SlotKind::Empty => w1.with_acceptor(s, w1.fresh().on_notice(sv.1, sv.2)),
        SlotKind::Open => w1.with_acceptor(s, w1.acceptor(s).on_notice(sv.1, sv.2)),
        _ => w1,
    }
}

/// Every value of `list` seeded in turn.
pub open spec fn seed_all(w: WindowView, list: Seq<(Slot, Ballot, Seq<u8>)>) -> WindowView
    decreases list.len(),
{
    if list.len() == 0 {
        w
    } else {
        seed(seed_all(w, list.drop_last()), list.last())
    }
}

/// The queued values `q` bound at `b` to new slots from `hi` on, as many as
/// there are slot numbers left.
pub open spec fn with_queued(w: WindowView, b: Ballot, q: Seq<Seq<u8>>) -> WindowView {
    let n = if q.len() <= u64::MAX - w.hi() {
        q.len()
    } else {
        (u64::MAX - w.hi()) as nat
    };
    WindowView {
        slots: w.slots + Seq::new(n, |i: int| SlotModel::Open(w.fresh().on_notice(b, q[i]))),
        ..w
    }
}

/// The state of the leader's pass that binds slots to its ballot.
pub struct AcceptScan {
    pub slots: Seq<SlotModel>,
    pub accepts: Seq<CommandView>,
}

/// The leader's pass over the first `n` slots of `w` at ballot `b`: an
/// undecided slot is rebound to `b` with its accepted value, or with a no-op
/// when it has none (a hole first gets an acceptor); decided slots are skipped.
pub open spec fn accept_scan(w: WindowView, b: Ballot, n: nat) -> AcceptScan
    decreases n,
{
    if n == 0 {
        AcceptScan { slots: w.slots, accepts: Seq::empty() }
    } else {
        let prev = accept_scan(w, b, (n - 1) as nat);
        let i = n - 1;
        let s = (w.lo + i) as Slot;
        match w.slots[i] {
            SlotModel::Empty => AcceptScan {
                slots: prev.slots.update(i, SlotModel::Open(w.fresh().on_notice(b, Seq::empty()))),
                accepts: prev.accepts.push(CommandView::Accept(s, b, Seq::empty())),
            },
            SlotModel::Open(a) => if a.resolved is Some {
                prev
            } else {
                let v = match a.accepted {
                    Some(p) => p.1,
                    None => Seq::empty(),
                };
                AcceptScan {
                    slots: prev.slots.update(i, SlotModel::Open(a.on_notice(b, v))),
                    accepts: prev.accepts.push(CommandView::Accept(s, b, v)),
                }
            },
        }
    }
}

proof fn lemma_accept_scan_frame(w: WindowView, b: Ballot, n: nat)
    requires
        n <= w.slots.len(),
    ensures
        accept_scan(w, b, n).slots.len() == w.slots.len(),
        forall|j: int| n <= j < w.slots.len() ==> #[trigger] accept_scan(w, b, n).slots[j] == w.slots[j],
    decreases n,
{
    if n > 0 {
        lemma_accept_scan_frame(w, b, (n - 1) as nat);
    }
}

/// A window after the ready prefix of `k` slots is applied.
pub open spec fn drained(w: WindowView, k: nat) -> WindowView {
    w.truncated(k)
}


/// The state of a prepare's pass over the first slots of a window.
pub struct PrepareScan {
    pub slots: Seq<SlotModel>,
    /// The known values reported so far: `(slot, ballot, value)`.
    pub found: Seq<(Slot, Ballot, Seq<u8>)>,
    /// The ballot that refused the prepare, once one did; the pass stops there.
    pub rejected: Option<Ballot>,
}

/// A prepare at `b` run over the first `n` slots of `w`: each acceptor is
/// asked in slot order, holes are skipped, and the first refusal stops it.
pub open spec fn prepare_scan(w: WindowView, b: Ballot, n: nat) -> PrepareScan
    decreases n,
{
    if n == 0 {
        PrepareScan { slots: w.slots, found: Seq::empty(), rejected: None }
    } else {
        let prev = prepare_scan(w, b, (n - 1) as nat);
        let i = n - 1;
        if prev.rejected is Some {
            prev
        } else {
            match w.slots[i] {
                SlotModel::Empty => prev,
                SlotModel::Open(a) => if a.prepare_rejects(b) {
                    PrepareScan { rejected: a.promised, ..prev }
                } else {
                    PrepareScan {
                        slots: prev.slots.update(i, SlotModel::Open(a.on_prepare(b))),
                        found: match a.highest() {
                            Some(h) => prev.found.push(((w.lo + i) as Slot, h.0, h.1)),
                            None => prev.found,
                        },
                        rejected: None,
                    }
                },
            }
        }
    }
}

proof fn lemma_prepare_scan_frame(w: WindowView, b: Ballot, n: nat)
    requires
        n <= w.slots.len(),
    ensures
        prepare_scan(w, b, n).slots.len() == w.slots.len(),
        forall|j: int| n <= j < w.slots.len() ==> #[trigger] prepare_scan(w, b, n).slots[j] == w.slots[j],
    decreases n,
{
    if n > 0 {
        lemma_prepare_scan_frame(w, b, (n - 1) as nat);
    }
}

impl ReplicaView {

    /// After phase 1 succeeded: the queue is bound to new slots and every
    /// undecided slot is rebound to the leader's ballot, one Accept each,
    /// broadcast in slot order. Nothing happens unless this node leads.
    pub open spec fn on_drive(self) -> (ReplicaView, Seq<(NodeId, CommandView)>) {
        if self.proposer.role != ProposerStatus::Leader {
            (self, Seq::empty())
        } else {
            let b = self.proposer.highest->Some_0;
            let w1 = with_queued(self.window, b, self.queue);
            let scan = accept_scan(w1, b, w1.slots.len());
            (
                ReplicaView { window: WindowView { slots: scan.slots, ..w1 }, queue: Seq::empty(), ..self },
                broadcast_all(self.peers, scan.accepts),
            )
        }
    }

    /// The replica and the messages after node `node` promised `b` and
    /// reported `list`.
    pub open spec fn on_promise(self, node: NodeId, b: Ballot, list: Seq<(Slot, Ballot, Seq<u8>)>) -> (ReplicaView, Seq<(NodeId, CommandView)>) {
        if self.proposer.role != ProposerStatus::Candidate {
            (self, Seq::empty())
        } else {
            ReplicaView {
                proposer: self.proposer.on_promise(node, b),
                window: seed_all(self.window, list),
                ..self
            }.on_drive()
        }
    }

    /// The acceptor's answer to an accept at `b` for slot `s`.
    pub open spec fn accept_reply(self, a: AcceptorView, s: Slot, b: Ballot) -> Seq<(NodeId, CommandView)> {
        if a.accept_rejects(b) {
            seq![(b.1, CommandView::Reject(self.node, b, a.promised->Some_0))]
        } else if a.resolved is Some {
            Seq::empty()
        } else {
            seq![(b.1, CommandView::Accepted(self.node, s, b))]
        }
    }

    /// The replica and the messages after an accept of `v` at `b` for slot `s`.
    pub open spec fn on_accept(self, s: Slot, b: Ballot, v: Seq<u8>) -> (ReplicaView, Seq<(NodeId, CommandView)>) {
        let p = self.proposer.on_observe(b);
        let w = self.window.extended(s as int);
        match self.window.kind(s as int) {
            SlotKind::Empty => {
                let a = w.fresh();
                (
                    ReplicaView { proposer: p, window: w.with_acceptor(s as int, a.on_accept(b, v)), ..self },
                    self.accept_reply(a, s, b),
                )
            },
            SlotKind::Open => {
                let a = w.acceptor(s as int);
                (
                    ReplicaView { proposer: p, window: w.with_acceptor(s as int, a.on_accept(b, v)), ..self },
                    self.accept_reply(a, s, b),
                )
            },
            _ => (ReplicaView { proposer: p, window: w, ..self }, Seq::empty()),
        }
    }

    /// The replica and the messages after a reject that carries `preempted`:
    /// a demoted replica hands its queued values to the new leader.
    pub open spec fn on_reject(self, preempted: Ballot) -> (ReplicaView, Seq<(NodeId, CommandView)>) {
        let p = self.proposer.on_observe(preempted);
        if p.role == ProposerStatus::Follower && self.queue.len() > 0 && p.highest is Some {
            let leader = p.highest->Some_0.1;
            (
                ReplicaView { proposer: p, queue: Seq::empty(), ..self },
                Seq::new(self.queue.len(), |i: int| (leader, CommandView::Proposal(self.queue[i]))),
            )
        } else {
            (ReplicaView { proposer: p, ..self }, Seq::empty())
        }
    }

    /// The replica and the messages after node `node` accepted slot `s` at
    /// `b`, before decisions are applied, and whether they are applied.
    pub open spec fn on_accepted(self, node: NodeId, s: Slot, b: Ballot) -> (ReplicaView, Seq<(NodeId, CommandView)>, bool) {
        let p = self.proposer.on_observe(b);
        let w = self.window.extended(s as int);
        if self.window.kind(s as int) == SlotKind::Open {
            let a = w.acceptor(s as int).on_accepted(node, b).on_resolution();
            (
                ReplicaView { proposer: p, window: w.with_acceptor(s as int, a), ..self },
                match a.resolved {
                    Some(d) => broadcast(self.peers, CommandView::Resolution(s, d.0, d.1)),
                    None => Seq::empty(),
                },
                true,
            )
        } else {
            (ReplicaView { proposer: p, window: w, ..self }, Seq::empty(), false)
        }
    }

    /// The replica after slot `s` is decided as `(b, v)` by another node,
    /// before decisions are applied.
    pub open spec fn on_resolution(self, s: Slot, b: Ballot, v: Seq<u8>) -> ReplicaView {
        let p = self.proposer.on_observe(b);
        let w = self.window.extended(s as int);
        let window = match self.window.kind(s as int) {
            SlotKind::Empty => w.with_acceptor(s as int, w.fresh().on_resolve(b, v)),
            SlotKind::Open => w.with_acceptor(s as int, w.acceptor(s as int).on_resolve(b, v)),
            _ => w,
        };
        ReplicaView { proposer: p, window, ..self }
    }
    /// The replica and the messages after a prepare at `b`: one Promise with
    /// every known value of the window, or one Reject, to `b`'s node. The
    /// acceptors are asked in slot order, then the slots without state.
    pub open spec fn on_prepare(self, b: Ballot) -> (ReplicaView, Seq<(NodeId, CommandView)>) {
        let scan = prepare_scan(self.window, b, self.window.slots.len());
        let w = WindowView { slots: scan.slots, ..self.window };
        let p = self.proposer.on_observe(b);
        match scan.rejected {
            Some(q) => (
                ReplicaView { proposer: p, window: w, ..self },
                seq![(b.1, CommandView::Reject(self.node, b, q))],
            ),
            None => if reaches(b, w.promised) {
                (
                    ReplicaView { proposer: p, window: w.on_prepare_stateless(b), ..self },
                    seq![(b.1, CommandView::Promise(self.node, b, scan.found))],
                )
            } else {
                (
                    ReplicaView { proposer: p, window: w, ..self },
                    seq![(b.1, CommandView::Reject(self.node, b, w.promised->Some_0))],
                )
            },
        }
    }
    /// The replica and the messages after a client proposes `v`.
    /// A proposal is queued: this node is a candidate, or a follower that
    /// knows of no leader and starts phase 1.
    pub open spec fn proposal_queues(self) -> bool {
        self.proposer.role == ProposerStatus::Candidate || (self.proposer.role
            == ProposerStatus::Follower && self.proposer.highest is None)
    }

    /// A proposal that would be queued is turned away: the queue is full.
    pub open spec fn proposal_refused(self) -> bool {
        self.proposal_queues() && self.queue.len() >= QUEUE_CAPACITY
    }

    pub open spec fn on_proposal(self, v: Seq<u8>) -> (ReplicaView, Seq<(NodeId, CommandView)>) {
        if self.proposal_refused() {
            (self, Seq::empty())
        } else {
            self.on_accepted_proposal(v)
        }
    }

    /// The replica and the messages after a client proposes `v`, when there
    /// is room for it.
    pub open spec fn on_accepted_proposal(self, v: Seq<u8>) -> (ReplicaView, Seq<(NodeId, CommandView)>) {
        match self.proposer.role {
            ProposerStatus::Follower => match self.proposer.highest {
                None => (
                    ReplicaView { proposer: self.proposer.on_prepare(), queue: self.queue.push(v), ..self },
                    broadcast(self.peers, CommandView::Prepare(Ballot(0, self.node))),
                ),
                Some(h) => (self, seq![(h.1, CommandView::Proposal(v))]),
            },
            ProposerStatus::Candidate => (ReplicaView { queue: self.queue.push(v), ..self }, Seq::empty()),
            ProposerStatus::Leader => {
                let b = self.proposer.highest->Some_0;
                let hi = self.window.hi();
                if hi < u64::MAX {
                    (
                        ReplicaView {
                            window: WindowView {
                                slots: self.window.slots.push(
                                    SlotModel::Open(self.window.fresh().on_notice(b, v)),
                                ),
                                ..self.window
                            },
                            ..self
                        },
                        broadcast(self.peers, CommandView::Accept(hi as Slot, b, v)),
                    )
                } else {
                    (self, Seq::empty())
                }
            },
        }
    }
}

/// The most client values a replica holds while it has no slot or leader
/// for them; further values are turned away.
pub const QUEUE_CAPACITY: usize = 4096;

/// A Multi-Paxos replica: it routes each inbound message through its
/// proposer and slot window and reports what to send and what to apply.
pub struct Replica<S> {
    sender: S,
    config: Configuration,
    proposer: Proposer,
    window: SlotWindow,
    proposal_queue: Vec<Bytes>,
}

impl<S> View for Replica<S> {
    type V = ReplicaView;

    closed spec fn view(&self) -> ReplicaView {
        ReplicaView {
            node: self.config.node(),
            peers: self.config.peer_ids(),
            proposer: self.proposer@,
            window: self.window@,
            queue: Seq::new(self.proposal_queue@.len(), |i: int| bytes_of(self.proposal_queue@[i])),
        }
    }
}

/// Appends `c` once for each peer.
fn push_broadcast(msgs: &mut Vec<(NodeId, Command)>, peers: &Vec<NodeId>, c: Command)
    ensures
        messages_view(final(msgs)@) == messages_view(old(msgs)@) + broadcast(peers@, command_view(c)),
{
    let ghost start = messages_view(msgs@);
    let mut i: usize = 0;
    while i < peers.len()
        invariant
            0 <= i <= peers.len(),
            messages_view(msgs@) =~= start + broadcast(peers@.take(i as int), command_view(c)),
        decreases peers.len() - i,
    {
        let copy = copy_command(&c);
        let ghost prev = msgs@;
        msgs.push((peers[i], copy));
        proof {
            assert(messages_view(msgs@) =~= messages_view(prev).push((peers@[i as int], command_view(c))));
            assert(broadcast(peers@.take(i + 1), command_view(c)) =~= broadcast(peers@.take(i as int), command_view(c)).push((peers@[i as int], command_view(c))));
        }
        i = i + 1;
        proof {
            assert(messages_view(msgs@) =~= start + broadcast(peers@.take(i as int), command_view(c)));
        }
    }
    proof {
        assert(peers@.take(peers@.len() as int) =~= peers@);
    }
}

/// Appends one message.
fn push_message(msgs: &mut Vec<(NodeId, Command)>, to: NodeId, c: Command)
    ensures
        messages_view(final(msgs)@) == messages_view(old(msgs)@).push((to, command_view(c))),
{
    msgs.push((to, c));
    proof {
        assert(messages_view(msgs@) =~= messages_view(old(msgs)@).push((to, command_view(c))));
    }
}

/// A copy of a message with the same content.
fn copy_command(c: &Command) -> (r: Command)
    ensures
        command_view(r) == command_view(*c),
{
    match c {
        Command::Proposal(v) => Command::Proposal(v.clone()),
        Command::Prepare(b) => Command::Prepare(*b),
        Command::Promise(n, b, acc) => {
            let mut copy: Vec<SlottedValue> = Vec::new();
            let mut i: usize = 0;
            while i < acc.len()
                invariant
                    0 <= i <= acc.len(),
                    copy@.len() == i,
                    forall|j: int| 0 <= j < i ==> slotted_view(#[trigger] copy@[j]) == slotted_view(acc@[j]),
                decreases acc.len() - i,
            {
                let e = &acc[i];
                copy.push((e.0, e.1, e.2.clone()));
                i = i + 1;
            }
            let r = Command::Promise(*n, *b, copy);
            proof {
                if let CommandView::Promise(_, _, l) = command_view(r) {
                    if let CommandView::Promise(_, _, m) = command_view(*c) {
                        assert(l =~= m);
                    }
                }
            }
            r
        },
        Command::Accept(s, b, v) => Command::Accept(*s, *b, v.clone()),
        Command::Reject(n, p, q) => Command::Reject(*n, *p, *q),
        Command::Accepted(n, s, b) => Command::Accepted(*n, *s, *b),
        Command::Resolution(s, b, v) => Command::Resolution(*s, *b, v.clone()),
    }
}

impl<S> Replica<S> {
    /// The sender that the replica holds for its host.
    pub closed spec fn held_sender(&self) -> S {
        self.sender
    }

    pub closed spec fn wf(&self) -> bool {
        &&& self.config.wf()
        &&& self.proposer.wf()
        &&& self.window.wf()
        &&& self.proposer@.node == self.config.node()
    }

    /// A replica of the configured local node, as a follower with an empty log.
    pub fn new(sender: S, config: Configuration) -> (r: Replica<S>)
        requires
            config.wf(),
        ensures
            r.wf(),
            r@.node == config.node(),
            r@.peers == config.peer_ids(),
            r@.proposer == (ProposerView {
                node: config.node(),
                quorum: majority(config.peer_ids().len() + 1),
                role: ProposerStatus::Follower,
                highest: None,
                promises: Set::empty(),
            }),
            r@.window == (WindowView {
                lo: 0,
                slots: Seq::empty(),
                quorum: majority(config.peer_ids().len() + 1),
                promised: None,
            }),
            r@.queue == Seq::<Seq<u8>>::empty(),
    {
        let (p1_quorum, p2_quorum) = config.quorum_size();
        let node = config.current();
        let r = Replica {
            sender,
            config,
            proposer: Proposer::new(node, p1_quorum),
            window: SlotWindow::new(p2_quorum),
            proposal_queue: Vec::new(),
        };
        proof {
            assert(r@.queue =~= Seq::<Seq<u8>>::empty());
        }
        r
    }

    /// The same replica with another sender.
    pub fn with_sender<A>(self, sender: A) -> (r: Replica<A>)
        ensures
            r@ == self@,
            r.wf() == self.wf(),
    {
        Replica {
            sender,
            config: self.config,
            proposer: self.proposer,
            window: self.window,
            proposal_queue: self.proposal_queue,
        }
    }

    pub fn sender_mut(&mut self) -> (s: &mut S)
        ensures
            *s == old(self).held_sender(),
            final(self)@ == old(self)@,
            final(self).wf() == old(self).wf(),
    {
        &mut self.sender
    }

    pub fn sender(&self) -> (s: &S)
        ensures
            *s == self.held_sender(),
    {
        &self.sender
    }

    pub fn proposer(&self) -> (p: &Proposer)
        ensures
            p@ == self@.proposer,
    {
        &self.proposer
    }

    pub fn window(&self) -> (w: &SlotWindow)
        ensures
            w@ == self@.window,
    {
        &self.window
    }

    pub fn config(&self) -> (c: &Configuration)
        ensures
            c.node() == self@.node,
            c.peer_ids() == self@.peers,
    {
        &self.config
    }

    /// Applies the decided prefix of the window: every decided slot at its
    /// front, in slot order, no-ops left out.
    fn execute_decisions(&mut self, decisions: &mut Vec<(Slot, Bytes)>)
        requires
            old(self).wf(),
        ensures
            final(self).wf(),
            exists|k: nat| {
                &&& old(self)@.window.ready_count(k)
                &&& final(self)@ == ReplicaView { window: drained(old(self)@.window, k), ..old(self)@ }
                &&& decisions_view(final(decisions)@) == decisions_view(old(decisions)@)
                    + without_noops(ready_decisions(old(self)@.window, k))
            },
    {
        let ghost start = decisions_view(decisions@);
        let ghost w = self.window@;
        proof {
            self.window.lemma_bounded();
        }
        let drained_slots = self.window.drain_decisions();
        let ghost k = drained_slots@.len() as nat;
        proof {
            assert(self.window@.lo == w.lo + k);
        }
        let mut i: usize = 0;
        while i < drained_slots.len()
            invariant
                0 <= i <= drained_slots.len(),
                k == drained_slots@.len(),
                w.ready_count(k),
                w.lo + k <= u64::MAX,
                forall|j: int| 0 <= j < drained_slots@.len() ==> (#[trigger] drained_slots@[j]).0 == w.lo + j
                    && bytes_of(drained_slots@[j].1) == w.slots[j]->Open_0.resolved->Some_0.1,
                decisions_view(decisions@) =~= start + without_noops(ready_decisions(w, i as nat)),
            decreases drained_slots.len() - i,
        {
            let (slot, val) = (drained_slots[i].0, drained_slots[i].1.clone());
            proof {
                assert(ready_decisions(w, (i + 1) as nat).drop_last() =~= ready_decisions(w, i as nat));
            }
            let ghost prev = decisions@;
            proof {
                assert(ready_decisions(w, (i + 1) as nat).last() == (slot, bytes_of(val)));
            }
            if !is_noop(&val) {
                decisions.push((slot, val));
                proof {
                    assert(decisions_view(decisions@) =~= decisions_view(prev).push((slot, bytes_of(val))));
                }
            }
            i = i + 1;
            proof {
                assert(decisions_view(decisions@) =~= start + without_noops(ready_decisions(w, i as nat)));
            }
        }
        proof {
            assert(self@ =~= ReplicaView { window: drained(old(self)@.window, k), ..old(self)@ });
        }
    }

    /// A client value: started on phase 1, forwarded to the known leader,
    /// queued while phase 1 runs, or bound to a new slot by the leader.
    pub fn proposal(&mut self, val: Bytes) -> (out: Output)
        requires
            old(self).wf(),
        ensures
            final(self).wf(),
            (final(self)@, out.sent()) == old(self)@.on_proposal(bytes_of(val)),
            out.applied() == Seq::<(Slot, Seq<u8>)>::empty(),
            ballot_grew(old(self)@.proposer.highest, final(self)@.proposer.highest),
            has_accept(out.sent()) ==> final(self)@.proposer.role == ProposerStatus::Leader,
            out.turned_away() == if old(self)@.proposal_refused() {
                seq![bytes_of(val)]
            } else {
                Seq::<Seq<u8>>::empty()
            },
    {
        let mut out = Output::none();
        let ghost v = bytes_of(val);
        proof {
            self.proposer.lemma_roles();
        }
        let status = self.proposer.status();
        let queues = status == ProposerStatus::Candidate || (status == ProposerStatus::Follower
            && self.proposer.highest_observed_ballot().is_none());
        if queues && self.proposal_queue.len() >= QUEUE_CAPACITY {
            out.refused.push(val);
            proof {
                assert(out.turned_away() =~= seq![v]);
            }
            return out;
        }
        match self.proposer.status() {
            ProposerStatus::Follower => {
                match self.proposer.highest_observed_ballot() {
                    None => {
                        self.proposal_queue.push(val);
                        let b = self.proposer.prepare();
                        push_broadcast(&mut out.messages, self.config.peers(), Command::Prepare(b));
                        proof {
                            assert(self@.queue =~= old(self)@.queue.push(v));
                            assert(out.sent() =~= broadcast(self@.peers, CommandView::Prepare(b)));
                        }
                    },
                    Some(h) => {
                        push_message(&mut out.messages, h.1, Command::Proposal(val));
                        proof {
                            assert(out.sent() =~= seq![(h.1, CommandView::Proposal(v))]);
                        }
                    },
                }
            },
            ProposerStatus::Candidate => {
                self.proposal_queue.push(val);
                proof {
                    assert(self@.queue =~= old(self)@.queue.push(v));
                }
            },
            ProposerStatus::Leader => {
                let b = self.proposer.highest_observed_ballot().unwrap();
                let copy = val.clone();
                match self.window.next_slot() {
                    Some(slot) => {
                        self.window.notice_value(slot, b, val);
                        push_broadcast(&mut out.messages, self.config.peers(), Command::Accept(slot, b, copy));
                        proof {
                            assert(self@.window.slots =~= old(self)@.window.slots.push(
                                SlotModel::Open(old(self)@.window.fresh().on_notice(b, v)),
                            ));
                            assert(out.sent() =~= broadcast(self@.peers, CommandView::Accept(slot, b, v)));
                        }
                    },
                    None => {},
                }
            },
        }
        proof {
            assert(has_accept(out.sent()) ==> self@.proposer.role == ProposerStatus::Leader);
            assert(out.turned_away() =~= Seq::<Seq<u8>>::empty());
        }
        out
    }

    /// Phase 1a arriving: asks every acceptor of the window, then the slots
    /// without state, to promise `b`; the answer goes to `b`'s node.
    pub fn prepare(&mut self, b: Ballot) -> (out: Output)
        requires
            old(self).wf(),
        ensures
            out.refused@.len() == 0,
            final(self).wf(),
            (final(self)@, out.sent()) == old(self)@.on_prepare(b),
            out.applied() == Seq::<(Slot, Seq<u8>)>::empty(),
            ballot_grew(old(self)@.proposer.highest, final(self)@.proposer.highest),
            !has_accept(out.sent()),
    {
        let mut out = Output::none();
        self.proposer.observe_ballot(b);
        let node = self.config.current();
        let ghost w = self.window@;
        assert(w == old(self)@.window);
        let (lo, hi) = self.window.open_range();
        let mut found: Vec<SlottedValue> = Vec::new();
        let mut s = lo;
        proof {
            self.window.lemma_bounded();
        }
        while s < hi
            invariant
                self.wf(),
                self.proposer@ == old(self)@.proposer.on_observe(b),
                self.config == old(self).config,
                self.proposal_queue@ == old(self).proposal_queue@,
                node == self@.node,
                w == old(self)@.window,
                lo == w.lo,
                hi == w.hi(),
                lo <= s <= hi,
                self.window@ == (WindowView { slots: prepare_scan(w, b, (s - lo) as nat).slots, ..w }),
                Seq::new(found@.len(), |i: int| slotted_view(found@[i])) =~= prepare_scan(w, b, (s - lo) as nat).found,
                prepare_scan(w, b, (s - lo) as nat).rejected is None,
                out.sent() == Seq::<(NodeId, CommandView)>::empty(),
                out.applied() == Seq::<(Slot, Seq<u8>)>::empty(),
                out.refused@.len() == 0,
            decreases hi - s,
        {
            let ghost n = (s - lo) as nat;
            proof {
                lemma_prepare_scan_frame(w, b, n);
            }
            let k = self.window.kind(s);
            if k == SlotKind::Open || k == SlotKind::Resolved {
                match self.window.receive_prepare(s, b) {
                    PrepareResponse::Promise { value, .. } => {
                        match value {
                            Some(h) => {
                                let ghost prev = found@;
                                found.push((s, h.0, h.1));
                                proof {
                                    assert(Seq::new(found@.len(), |i: int| slotted_view(found@[i])) =~= Seq::new(prev.len(), |i: int| slotted_view(prev[i])).push(slotted_view((s, h.0, h.1))));
                                }
                            },
                            None => {},
                        }
                    },
                    PrepareResponse::Reject { proposed, preempted } => {
                        push_message(&mut out.messages, b.1, Command::Reject(node, proposed, preempted));
                        proof {
                            assert(self.window@.slots =~= prepare_scan(w, b, n).slots);
                            assert(self.window@ == (WindowView { slots: prepare_scan(w, b, (n + 1) as nat).slots, ..w }));
                            assert(w.slots[n as int] is Open);
                            assert(prepare_scan(w, b, (n + 1) as nat).rejected == Some(preempted));
                            lemma_scan_stops(w, b, n + 1, w.slots.len());
                            assert(out.sent() =~= seq![(b.1, CommandView::Reject(node, b, preempted))]);
                            assert(self@.queue =~= old(self)@.queue);
                            assert(self@ == old(self)@.on_prepare(b).0);
                        }
                        return out;
                    },
                }
            }
            s = s + 1;
            proof {
                assert(self.window@.slots =~= prepare_scan(w, b, (s - lo) as nat).slots);
            }
        }
        let ghost scan = prepare_scan(w, b, w.slots.len());
        match self.window.prepare_stateless(b) {
            Some(preempted) => {
                push_message(&mut out.messages, b.1, Command::Reject(node, b, preempted));
                proof {
                    assert(out.sent() =~= seq![(b.1, CommandView::Reject(node, b, preempted))]);
                }
            },
            None => {
                push_message(&mut out.messages, b.1, Command::Promise(node, b, found));
                proof {
                    assert(out.sent() =~= seq![(b.1, CommandView::Promise(node, b, scan.found))]);
                }
            },
        }
        out
    }

    /// Phase 2b: the acceptor of `slot` is asked to accept `val` at `b`; the
    /// answer goes to `b`'s node.
    pub fn accept(&mut self, slot: Slot, b: Ballot, val: Bytes) -> (out: Output)
        requires
            old(self).wf(),
        ensures
            out.refused@.len() == 0,
            final(self).wf(),
            (final(self)@, out.sent()) == old(self)@.on_accept(slot, b, bytes_of(val)),
            out.applied() == Seq::<(Slot, Seq<u8>)>::empty(),
            ballot_grew(old(self)@.proposer.highest, final(self)@.proposer.highest),
            !has_accept(out.sent()),
    {
        let mut out = Output::none();
        self.proposer.observe_ballot(b);
        let node = self.config.current();
        let k = self.window.slot_mut(slot);
        let res = if k == SlotKind::Empty {
            self.window.fill(slot);
            self.window.receive_accept(slot, b, val)
        } else if k == SlotKind::Open {
            self.window.receive_accept(slot, b, val)
        } else {
            return out;
        };
        match res {
            AcceptResponse::Accepted { .. } => {
                push_message(&mut out.messages, b.1, Command::Accepted(node, slot, b));
            },
            AcceptResponse::Reject { proposed, preempted } => {
                push_message(&mut out.messages, b.1, Command::Reject(node, proposed, preempted));
            },
            AcceptResponse::NoChange => {},
        }
        proof {
            assert(self.window@.slots =~= old(self)@.on_accept(slot, b, bytes_of(val)).0.window.slots);
            assert(out.sent() =~= old(self)@.on_accept(slot, b, bytes_of(val)).1);
        }
        out
    }

    /// A reject carries the ballot that preempted ours; once demoted, the
    /// queued values go to the new leader.
    pub fn reject(&mut self, node: NodeId, proposed: Ballot, preempted: Ballot) -> (out: Output)
        requires
            old(self).wf(),
        ensures
            out.refused@.len() == 0,
            final(self).wf(),
            (final(self)@, out.sent()) == old(self)@.on_reject(preempted),
            out.applied() == Seq::<(Slot, Seq<u8>)>::empty(),
            ballot_grew(old(self)@.proposer.highest, final(self)@.proposer.highest),
            !has_accept(out.sent()),
    {
        let mut out = Output::none();
        self.proposer.receive_reject(node, proposed, preempted);
        self.forward(&mut out);
        out
    }

    /// Hands the queued values to the known leader when this node follows.
    fn forward(&mut self, out: &mut Output)
        requires
            old(self).wf(),
            old(out).sent() == Seq::<(NodeId, CommandView)>::empty(),
            old(out).applied() == Seq::<(Slot, Seq<u8>)>::empty(),
        ensures
            final(out).refused@ == old(out).refused@,
            final(self).wf(),
            final(out).applied() == Seq::<(Slot, Seq<u8>)>::empty(),
            old(self)@.proposer.role == ProposerStatus::Follower && old(self)@.queue.len() > 0
                && old(self)@.proposer.highest is Some ==> {
                &&& final(self)@ == ReplicaView { queue: Seq::empty(), ..old(self)@ }
                &&& final(out).sent() == Seq::new(
                    old(self)@.queue.len(),
                    |i: int| (old(self)@.proposer.highest->Some_0.1, CommandView::Proposal(old(self)@.queue[i])),
                )
            },
            !(old(self)@.proposer.role == ProposerStatus::Follower && old(self)@.queue.len() > 0
                && old(self)@.proposer.highest is Some) ==> final(self)@ == old(self)@ && final(out).sent()
                == Seq::<(NodeId, CommandView)>::empty(),
    {
        if self.proposer.status() != ProposerStatus::Follower || self.proposal_queue.len() == 0 {
            return;
        }
        match self.proposer.highest_observed_ballot() {
            Some(h) => {
                let mut proposals: Vec<Bytes> = Vec::new();
                std::mem::swap(&mut proposals, &mut self.proposal_queue);
                let ghost q = old(self)@.queue;
                let mut i: usize = 0;
                while i < proposals.len()
                    invariant
                        0 <= i <= proposals.len(),
                        q == Seq::new(proposals@.len(), |j: int| bytes_of(proposals@[j])),
                        out.applied() == Seq::<(Slot, Seq<u8>)>::empty(),
                        out.refused@ == old(out).refused@,
                out.refused@ == old(out).refused@,
                        out.sent() =~= Seq::new(i as nat, |j: int| (h.1, CommandView::Proposal(q[j]))),
                    decreases proposals.len() - i,
                {
                    let v = proposals[i].clone();
                    push_message(&mut out.messages, h.1, Command::Proposal(v));
                    i = i + 1;
                    proof {
                        assert(out.sent() =~= Seq::new(i as nat, |j: int| (h.1, CommandView::Proposal(q[j]))));
                    }
                }
                proof {
                    assert(self@.queue =~= Seq::<Seq<u8>>::empty());
                    assert(self@ == ReplicaView { queue: Seq::empty(), ..old(self)@ });
                }
            },
            None => {},
        }
    }

    /// Phase 2b arriving at the leader: a quorum of votes decides the slot,
    /// which is broadcast and applied with every decision it unblocks.
    pub fn accepted(&mut self, node: NodeId, slot: Slot, b: Ballot) -> (out: Output)
        requires
            old(self).wf(),
        ensures
            out.refused@.len() == 0,
            final(self).wf(),
            out.sent() == old(self)@.on_accepted(node, slot, b).1,
            old(self)@.on_accepted(node, slot, b).2 ==> settled(old(self)@.on_accepted(node, slot, b).0, final(self)@, out.applied()),
            !old(self)@.on_accepted(node, slot, b).2 ==> final(self)@ == old(self)@.on_accepted(node, slot, b).0
                && out.applied() == Seq::<(Slot, Seq<u8>)>::empty(),
            ballot_grew(old(self)@.proposer.highest, final(self)@.proposer.highest),
            !has_accept(out.sent()),
            applied_in_order(out.applied(), old(self)@.window.lo as int, final(self)@.window.lo as int),
            old(self)@.window.lo <= final(self)@.window.lo,
    {
        let mut out = Output::none();
        self.proposer.observe_ballot(b);
        let ghost lo = self.window@.lo;
        let k = self.window.slot_mut(slot);
        if k != SlotKind::Open {
            return out;
        }
        self.window.receive_accepted(slot, node, b);
        let decided = self.window.resolution(slot);
        match decided {
            Some(d) => {
                push_broadcast(&mut out.messages, self.config.peers(), Command::Resolution(slot, d.0, d.1));
            },
            None => {},
        }
        proof {
            assert(out.sent() =~= old(self)@.on_accepted(node, slot, b).1);
            assert(self.window@.slots =~= old(self)@.on_accepted(node, slot, b).0.window.slots);
            assert(self@ == old(self)@.on_accepted(node, slot, b).0);
            self.window.lemma_bounded();
        }
        let ghost mid = self@;
        self.execute_decisions(&mut out.decisions);
        proof {
            let k = choose|k: nat| {
                &&& mid.window.ready_count(k)
                &&& self@ == ReplicaView { window: drained(mid.window, k), ..mid }
                &&& decisions_view(out.decisions@) == Seq::<(Slot, Seq<u8>)>::empty()
                    + without_noops(ready_decisions(mid.window, k))
            };
            assert(out.applied() =~= without_noops(ready_decisions(mid.window, k)));
            lemma_without_noops_ordered(mid.window, k);
        }
        out
    }

    /// A decision made elsewhere: the slot takes it unless already decided,
    /// and every decision it unblocks is applied.
    pub fn resolution(&mut self, slot: Slot, b: Ballot, val: Bytes) -> (out: Output)
        requires
            old(self).wf(),
        ensures
            out.refused@.len() == 0,
            final(self).wf(),
            out.sent() == Seq::<(NodeId, CommandView)>::empty(),
            settled(old(self)@.on_resolution(slot, b, bytes_of(val)), final(self)@, out.applied()),
            ballot_grew(old(self)@.proposer.highest, final(self)@.proposer.highest),
            applied_in_order(out.applied(), old(self)@.window.lo as int, final(self)@.window.lo as int),
            old(self)@.window.lo <= final(self)@.window.lo,
    {
        let mut out = Output::none();
        self.proposer.observe_ballot(b);
        let k = self.window.slot_mut(slot);
        if k == SlotKind::Empty {
            self.window.fill(slot);
            self.window.resolve(slot, b, val);
        } else if k == SlotKind::Open {
            self.window.resolve(slot, b, val);
        }
        proof {
            assert(self.window@.slots =~= old(self)@.on_resolution(slot, b, bytes_of(val)).window.slots);
            assert(self@ == old(self)@.on_resolution(slot, b, bytes_of(val)));
            self.window.lemma_bounded();
        }
        let ghost mid = self@;
        self.execute_decisions(&mut out.decisions);
        proof {
            let k = choose|k: nat| {
                &&& mid.window.ready_count(k)
                &&& self@ == ReplicaView { window: drained(mid.window, k), ..mid }
                &&& decisions_view(out.decisions@) == Seq::<(Slot, Seq<u8>)>::empty()
                    + without_noops(ready_decisions(mid.window, k))
            };
            assert(out.applied() =~= without_noops(ready_decisions(mid.window, k)));
            lemma_without_noops_ordered(mid.window, k);
        }
        out
    }

    /// Phase 2a once this node leads: binds the queue to new slots, rebinds
    /// every undecided slot to the leader's ballot and broadcasts the Accepts.
    fn drive_accept(&mut self, out: &mut Output)
        requires
            old(self).wf(),
            old(out).sent() == Seq::<(NodeId, CommandView)>::empty(),
            old(out).applied() == Seq::<(Slot, Seq<u8>)>::empty(),
        ensures
            final(out).refused@ == old(out).refused@,
            final(self).wf(),
            (final(self)@, final(out).sent()) == old(self)@.on_drive(),
            final(out).applied() == Seq::<(Slot, Seq<u8>)>::empty(),
    {
        if self.proposer.status() != ProposerStatus::Leader {
            return;
        }
        proof {
            self.proposer.lemma_roles();
            self.window.lemma_bounded();
        }
        let b = self.proposer.highest_observed_ballot().unwrap();
        let ghost w0 = self.window@;
        let ghost q = self@.queue;
        let mut queue: Vec<Bytes> = Vec::new();
        std::mem::swap(&mut queue, &mut self.proposal_queue);
        let mut i: usize = 0;
        while i < queue.len()
            invariant
                self.wf(),
                self.proposer == old(self).proposer,
                self.config == old(self).config,
                self.proposal_queue@.len() == 0,
                w0 == old(self)@.window,
                q == Seq::new(queue@.len(), |j: int| bytes_of(queue@[j])),
                0 <= i <= queue.len(),
                self.window@ == with_queued(w0, b, q.take(i as int)),
                out.sent() == Seq::<(NodeId, CommandView)>::empty(),
                out.applied() == Seq::<(Slot, Seq<u8>)>::empty(),
                out.refused@ == old(out).refused@,
            decreases queue.len() - i,
        {
            let v = queue[i].clone();
            proof {
                self.window.lemma_bounded();
            }
            match self.window.next_slot() {
                Some(slot) => {
                    self.window.notice_value(slot, b, v);
                },
                None => {},
            }
            i = i + 1;
            proof {
                assert(self.window@.slots =~= with_queued(w0, b, q.take(i as int)).slots);
            }
        }
        proof {
            assert(q.take(q.len() as int) =~= q);
            self.window.lemma_bounded();
        }
        let ghost w1 = self.window@;
        let (lo, hi) = self.window.open_range();
        let mut accepts: Vec<(Slot, Bytes)> = Vec::new();
        let mut s = lo;
        while s < hi
            invariant
                self.wf(),
                self.proposer == old(self).proposer,
                self.config == old(self).config,
                self.proposal_queue@.len() == 0,
                w1 == with_queued(old(self)@.window, b, old(self)@.queue),
                lo == w1.lo,
                hi == w1.hi(),
                lo <= s <= hi,
                self.window@ == (WindowView { slots: accept_scan(w1, b, (s - lo) as nat).slots, ..w1 }),
                Seq::new(accepts@.len(), |j: int| CommandView::Accept(accepts@[j].0, b, bytes_of(accepts@[j].1)))
                    =~= accept_scan(w1, b, (s - lo) as nat).accepts,
                out.sent() == Seq::<(NodeId, CommandView)>::empty(),
                out.applied() == Seq::<(Slot, Seq<u8>)>::empty(),
                out.refused@ == old(out).refused@,
            decreases hi - s,
        {
            let ghost n = (s - lo) as nat;
            proof {
                lemma_accept_scan_frame(w1, b, n);
            }
            let k = self.window.kind(s);
            if k == SlotKind::Empty {
                self.window.fill(s);
                self.window.notice_value(s, b, noop());
                accepts.push((s, noop()));
            } else if k == SlotKind::Open {
                match self.window.highest_value(s) {
                    Some(h) => {
                        self.window.notice_value(s, b, h.1.clone());
                        accepts.push((s, h.1));
                    },
                    None => {
                        self.window.notice_value(s, b, noop());
                        accepts.push((s, noop()));
                    },
                }
            }
            s = s + 1;
            proof {
                assert(self.window@.slots =~= accept_scan(w1, b, (s - lo) as nat).slots);
                assert(Seq::new(accepts@.len(), |j: int| CommandView::Accept(accepts@[j].0, b, bytes_of(accepts@[j].1)))
                    =~= accept_scan(w1, b, (s - lo) as nat).accepts);
            }
        }
        let ghost cs = accept_scan(w1, b, w1.slots.len()).accepts;
        let mut j: usize = 0;
        while j < accepts.len()
            invariant
                0 <= j <= accepts.len(),
                cs == Seq::new(accepts@.len(), |m: int| CommandView::Accept(accepts@[m].0, b, bytes_of(accepts@[m].1))),
                out.sent() == broadcast_all(self@.peers, cs.take(j as int)),
                out.applied() == Seq::<(Slot, Seq<u8>)>::empty(),
                out.refused@ == old(out).refused@,
            decreases accepts.len() - j,
        {
            let v = accepts[j].1.clone();
            push_broadcast(&mut out.messages, self.config.peers(), Command::Accept(accepts[j].0, b, v));
            proof {
                assert(cs.take(j + 1).drop_last() =~= cs.take(j as int));
            }
            j = j + 1;
        }
        proof {
            assert(cs.take(cs.len() as int) =~= cs);
            assert(self@.queue =~= Seq::<Seq<u8>>::empty());
            assert(self@ == old(self)@.on_drive().0);
        }
    }

    /// Phase 1b arriving at a candidate: the promise is counted, the values
    /// it reports are seeded into the window, and a quorum starts phase 2.
    pub fn promise(&mut self, node: NodeId, b: Ballot, accepted: Vec<SlottedValue>) -> (out: Output)
        requires
            old(self).wf(),
        ensures
            out.refused@.len() == 0,
            final(self).wf(),
            (final(self)@, out.sent()) == old(self)@.on_promise(
                node,
                b,
                Seq::new(accepted@.len(), |i: int| slotted_view(accepted@[i])),
            ),
            out.applied() == Seq::<(Slot, Seq<u8>)>::empty(),
            ballot_grew(old(self)@.proposer.highest, final(self)@.proposer.highest),
            has_accept(out.sent()) ==> final(self)@.proposer.role == ProposerStatus::Leader,
    {
        let mut out = Output::none();
        let ghost list = Seq::new(accepted@.len(), |i: int| slotted_view(accepted@[i]));
        if self.proposer.status() != ProposerStatus::Candidate {
            return out;
        }
        self.proposer.receive_promise(node, b);
        let ghost w0 = self.window@;
        let mut i: usize = 0;
        while i < accepted.len()
            invariant
                self.wf(),
                self.proposer@ == old(self)@.proposer.on_promise(node, b),
                self.config == old(self).config,
                self.proposal_queue@ == old(self).proposal_queue@,
                w0 == old(self)@.window,
                list == Seq::new(accepted@.len(), |j: int| slotted_view(accepted@[j])),
                0 <= i <= accepted.len(),
                self.window@ == seed_all(w0, list.take(i as int)),
                out.sent() == Seq::<(NodeId, CommandView)>::empty(),
                out.applied() == Seq::<(Slot, Seq<u8>)>::empty(),
                out.refused@.len() == 0,
            decreases accepted.len() - i,
        {
            let slot = accepted[i].0;
            let sb = accepted[i].1;
            let sv = accepted[i].2.clone();
            let ghost before = self.window@;
            let k = self.window.slot_mut(slot);
            if k == SlotKind::Empty {
                self.window.fill(slot);
                self.window.notice_value(slot, sb, sv);
            } else if k == SlotKind::Open {
                self.window.notice_value(slot, sb, sv);
            }
            proof {
                assert(list.take(i + 1).drop_last() =~= list.take(i as int));
                assert(self.window@.slots =~= seed(before, list[i as int]).slots);
            }
            i = i + 1;
        }
        proof {
            assert(list.take(list.len() as int) =~= list);
        }
        self.drive_accept(&mut out);
        out
    }
}

/// Decisions of consecutive inbound messages stay in order: each batch lies
/// in the range its message truncated, so together every slot is applied at
/// most once and in strictly ascending order.
pub proof fn lemma_applied_in_order_across(
    d1: Seq<(Slot, Seq<u8>)>,
    d2: Seq<(Slot, Seq<u8>)>,
    lo0: int,
    lo1: int,
    lo2: int,
)
    requires
        applied_in_order(d1, lo0, lo1),
        applied_in_order(d2, lo1, lo2),
        lo0 <= lo1 <= lo2,
    ensures
        applied_in_order(d1 + d2, lo0, lo2),
{
    let d = d1 + d2;
    assert forall|i: int, j: int| 0 <= i < j < d.len() implies (#[trigger] d[i]).0 < (#[trigger] d[j]).0 by {
        if j < d1.len() {
            assert(d1[i] == d[i] && d1[j] == d[j]);
        } else if i >= d1.len() {
            assert(d2[i - d1.len()] == d[i] && d2[j - d1.len()] == d[j]);
        } else {
            assert(d1[i] == d[i] && d2[j - d1.len()] == d[j]);
        }
    }
    assert forall|i: int| 0 <= i < d.len() implies lo0 <= (#[trigger] d[i]).0 < lo2 && d[i].1.len() > 0 by {
        if i < d1.len() {
            assert(d1[i] == d[i]);
        } else {
            assert(d2[i - d1.len()] == d[i]);
        }
    }
}

/// An Accepted that decides a slot broadcasts its Resolution once: the slot
/// is decided afterwards, and an Accepted for a slot that is not open sends
/// nothing and applies nothing.
pub proof fn lemma_accepted_resolves_once(r: ReplicaView, node: NodeId, s: Slot, b: Ballot)
    ensures
        r.window.kind(s as int) != SlotKind::Open ==> r.on_accepted(node, s, b).1.len() == 0
            && !r.on_accepted(node, s, b).2,
        r.on_accepted(node, s, b).1.len() > 0 ==> r.on_accepted(node, s, b).0.window.kind(s as int)
            == SlotKind::Resolved,
        forall|fin: ReplicaView, ap: Seq<(Slot, Seq<u8>)>|
            r.on_accepted(node, s, b).1.len() > 0 && #[trigger] settled(r.on_accepted(node, s, b).0, fin, ap)
            ==> fin.on_accepted(node, s, b).1.len() == 0,
{
    let mid = r.on_accepted(node, s, b).0;
    assert forall|fin: ReplicaView, ap: Seq<(Slot, Seq<u8>)>|
        r.on_accepted(node, s, b).1.len() > 0 && #[trigger] settled(mid, fin, ap)
        implies fin.on_accepted(node, s, b).1.len() == 0 by {
        let k = choose|k: nat| {
            &&& mid.window.ready_count(k)
            &&& fin == ReplicaView { window: drained(mid.window, k), ..mid }
            &&& ap == without_noops(ready_decisions(mid.window, k))
        };
        if s as int >= mid.window.lo + k {
            assert(fin.window.entry(s as int) == mid.window.entry(s as int));
        }
    }
}

/// A Resolution for a slot that is already decided, or applied, changes
/// nothing but the observed ballot.
pub proof fn lemma_resolution_on_decided(r: ReplicaView, s: Slot, b: Ballot, v: Seq<u8>)
    requires
        r.window.kind(s as int) == SlotKind::Resolved || r.window.kind(s as int) == SlotKind::Truncated,
    ensures
        r.on_resolution(s, b, v) == (ReplicaView { proposer: r.proposer.on_observe(b), ..r }),
{
}

} // verus!
