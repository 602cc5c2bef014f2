use crate::ballot::{reaches, Ballot, NodeId};
use crate::value::{bytes_of, clone_pair, opt_pair_view, pair_view};
use bytes::Bytes;
use vstd::prelude::*;

verus! {

/// Answer of an acceptor to a prepare.
pub enum PrepareResponse {
    /// The acceptor promises `proposed` and reports the highest value it knows.
    Promise { proposed: Ballot, value: Option<(Ballot, Bytes)> },
    /// The acceptor has promised `preempted`, which orders above `proposed`.
    Reject { proposed: Ballot, preempted: Ballot },
}

/// Answer of an acceptor to an accept.
pub enum AcceptResponse {
    /// The value was accepted at `proposed`.
    Accepted { proposed: Ballot },
    /// The acceptor has promised `preempted`, which orders above `proposed`.
    Reject { proposed: Ballot, preempted: Ballot },
    /// The slot is already decided; nothing changed.
    NoChange,
}

/// The model of one slot's acceptor.
pub struct AcceptorView {
    pub promised: Option<Ballot>,
    pub accepted: Option<(Ballot, Seq<u8>)>,
    /// The ballot that the recorded phase-2 votes are for, and the voters.
    pub votes: Option<(Ballot, Set<NodeId>)>,
    pub resolved: Option<(Ballot, Seq<u8>)>,
    /// Phase-2 quorum; the local node counts as one voter.
    pub quorum: nat,
}

impl AcceptorView {
    /// A new acceptor that inherits the promise `promised` of the slots
    /// without state.
    pub open spec fn fresh(quorum: nat, promised: Option<Ballot>) -> AcceptorView {
        AcceptorView { promised, accepted: None, votes: None, resolved: None, quorum }
    }

    /// The highest-ballot value known: the decision if there is one, else the accepted pair.
    pub open spec fn highest(self) -> Option<(Ballot, Seq<u8>)> {
        if self.resolved is Some {
            self.resolved
        } else {
            self.accepted
        }
    }

    /// A prepare at `b` is refused: undecided, and a higher ballot was promised.
    pub open spec fn prepare_rejects(self, b: Ballot) -> bool {
        self.resolved is None && !reaches(b, self.promised)
    }

    pub open spec fn on_prepare(self, b: Ballot) -> AcceptorView {
        if self.resolved is None && reaches(b, self.promised) {
            AcceptorView { promised: Some(b), ..self }
        } else {
            self
        }
    }

    /// An accept at `b` is refused: undecided, and a higher ballot was promised.
    pub open spec fn accept_rejects(self, b: Ballot) -> bool {
        self.resolved is None && !reaches(b, self.promised)
    }

    pub open spec fn on_accept(self, b: Ballot, v: Seq<u8>) -> AcceptorView {
        if self.resolved is None && reaches(b, self.promised) {
            AcceptorView { promised: Some(b), accepted: Some((b, v)), ..self }
        } else {
            self
        }
    }

    /// `(b, v)` replaces the accepted pair when nothing is accepted or `b` is higher.
    pub open spec fn on_notice(self, b: Ballot, v: Seq<u8>) -> AcceptorView {
        let higher = match self.accepted {
            None => true,
            Some(p) => p.0.is_below(b),
        };
        if higher {
            AcceptorView { accepted: Some((b, v)), ..self }
        } else {
            self
        }
    }

    pub open spec fn on_accepted(self, node: NodeId, b: Ballot) -> AcceptorView {
        let stale = match self.accepted {
            None => false,
            Some(p) => b.is_below(p.0),
        };
        if self.resolved is Some || stale {
            self
        } else {
            match self.votes {
                Some(vs) => {
                    if vs.0 == b {
                        AcceptorView { votes: Some((b, vs.1.insert(node))), ..self }
                    } else if b.is_below(vs.0) {
                        self
                    } else {
                        AcceptorView { votes: Some((b, set![node])), ..self }
                    }
                },
                None => AcceptorView { votes: Some((b, set![node])), ..self },
            }
        }
    }

    /// The votes at the accepted ballot, with the local node, make a quorum.
    pub open spec fn quorum_reached(self) -> bool {
        match (self.accepted, self.votes) {
            (Some(a), Some(vs)) => a.0 == vs.0 && vs.1.len() + 1 >= self.quorum,
            _ => false,
        }
    }

    pub open spec fn on_resolution(self) -> AcceptorView {
        if self.resolved is None && self.quorum_reached() {
            AcceptorView { resolved: self.accepted, ..self }
        } else {
            self
        }
    }

    pub open spec fn on_resolve(self, b: Ballot, v: Seq<u8>) -> AcceptorView {
        if self.resolved is None {
            AcceptorView { accepted: Some((b, v)), resolved: Some((b, v)), ..self }
        } else {
            self
        }
    }
}

/// The Paxos acceptor of one slot.
pub struct Acceptor {
    promised: Option<Ballot>,
    accepted: Option<(Ballot, Bytes)>,
    votes: Option<(Ballot, Vec<NodeId>)>,
    resolved: Option<(Ballot, Bytes)>,
    quorum: usize,
}

/// Whether `node` is among `voters`.
fn contains_node(voters: &Vec<NodeId>, node: NodeId) -> (r: bool)
    ensures
        r == voters@.contains(node),
{
    let mut i: usize = 0;
    while i < voters.len()
        invariant
            0 <= i <= voters.len(),
            forall|j: int| 0 <= j < i ==> voters@[j] != node,
        decreases voters.len() - i,
    {
        if voters[i] == node {
            return true;
        }
        i = i + 1;
    }
    false
}

impl View for Acceptor {
    type V = AcceptorView;

    closed spec fn view(&self) -> AcceptorView {
        AcceptorView {
            promised: self.promised,
            accepted: opt_pair_view(self.accepted),
            votes: match self.votes {
                None => None,
                Some(vs) => Some((vs.0, vs.1@.to_set())),
            },
            resolved: opt_pair_view(self.resolved),
            quorum: self.quorum as nat,
        }
    }
}

impl Acceptor {
    /// The recorded voters hold no node twice.
    pub closed spec fn wf(&self) -> bool {
        match self.votes {
            None => true,
            Some(vs) => vs.1@.no_duplicates(),
        }
    }

    /// An acceptor with nothing accepted that starts from the promise `promised`.
    pub fn new(quorum: usize, promised: Option<Ballot>) -> (a: Acceptor)
        ensures
            a@ == AcceptorView::fresh(quorum as nat, promised),
            a.wf(),
    {
        Acceptor { promised, accepted: None, votes: None, resolved: None, quorum }
    }

    /// Phase 1a: promises `b` unless a higher ballot was promised; a decided
    /// slot answers with its decision.
    pub fn receive_prepare(&mut self, b: Ballot) -> (r: PrepareResponse)
        requires
            old(self).wf(),
        ensures
            final(self).wf(),
            final(self)@ == old(self)@.on_prepare(b),
            r is Reject <==> old(self)@.prepare_rejects(b),
            r matches PrepareResponse::Promise { proposed, value } ==> proposed == b
                && opt_pair_view(value) == old(self)@.highest(),
            r matches PrepareResponse::Reject { proposed, preempted } ==> proposed == b
                && old(self)@.promised == Some(preempted),
    {
        if let Some(res) = &self.resolved {
            return PrepareResponse::Promise { proposed: b, value: Some(clone_pair(res)) };
        }
        match self.promised {
            Some(p) if b.below(&p) => PrepareResponse::Reject { proposed: b, preempted: p },
            _ => {
                self.promised = Some(b);
                let value = match &self.accepted {
                    None => None,
                    Some(a) => Some(clone_pair(a)),
                };
                PrepareResponse::Promise { proposed: b, value }
            },
        }
    }

    /// Phase 2a: accepts `(b, v)` unless a higher ballot was promised or the
    /// slot is decided.
    pub fn receive_accept(&mut self, b: Ballot, v: Bytes) -> (r: AcceptResponse)
        requires
            old(self).wf(),
        ensures
            final(self).wf(),
            final(self)@ == old(self)@.on_accept(b, bytes_of(v)),
            r is NoChange <==> old(self)@.resolved is Some,
            r is Reject <==> old(self)@.accept_rejects(b),
            r matches AcceptResponse::Accepted { proposed } ==> proposed == b,
            r matches AcceptResponse::Reject { proposed, preempted } ==> proposed == b
                && old(self)@.promised == Some(preempted),
    {
        if self.resolved.is_some() {
            return AcceptResponse::NoChange;
        }
        match self.promised {
            Some(p) if b.below(&p) => AcceptResponse::Reject { proposed: b, preempted: p },
            _ => {
                self.promised = Some(b);
                self.accepted = Some((b, v));
                AcceptResponse::Accepted { proposed: b }
            },
        }
    }

    /// Records `(b, v)` as accepted when `b` is above the accepted ballot, or
    /// nothing is accepted; the promise is left alone.
    pub fn notice_value(&mut self, b: Ballot, v: Bytes)
        requires
            old(self).wf(),
        ensures
            final(self).wf(),
            final(self)@ == old(self)@.on_notice(b, bytes_of(v)),
    {
        let higher = match &self.accepted {
            None => true,
            Some(a) => a.0.below(&b),
        };
        if higher {
            self.accepted = Some((b, v));
        }
    }

    /// Phase 2b: counts the vote of `node` at `b`. A vote below the accepted
    /// ballot or the counted one is ignored; a higher one restarts the count.
    pub fn receive_accepted(&mut self, node: NodeId, b: Ballot)
        requires
            old(self).wf(),
        ensures
            final(self).wf(),
            final(self)@ == old(self)@.on_accepted(node, b),
    {
        if self.resolved.is_some() {
            return;
        }
        if let Some(a) = &self.accepted {
            if b.below(&a.0) {
                return;
            }
        }
        match self.votes.take() {
            Some((vb, mut voters)) => {
                if vb == b {
                    let ghost before = voters@;
                    if !contains_node(&voters, node) {
                        voters.push(node);
                        proof {
                            before.lemma_push_to_set_commute(node);
                            assert forall|i: int, j: int|
                                0 <= i < voters@.len() && 0 <= j < voters@.len() && i != j
                                implies voters@[i] != voters@[j] by {
                                if i == before.len() as int {
                                    assert(before.contains(before[j]));
                                } else if j == before.len() as int {
                                    assert(before.contains(before[i]));
                                }
                            }
                        }
                    } else {
                        proof {
                            assert(before.to_set().contains(node));
                            assert(before.to_set().insert(node) =~= before.to_set());
                        }
                    }
                    self.votes = Some((vb, voters));
                    return;
                }
                if b.below(&vb) {
                    self.votes = Some((vb, voters));
                    return;
                }
            },
            None => {},
        }
        let fresh: Vec<NodeId> = vec![node];
        proof {
            assert(fresh@.to_set() =~= set![node]);
        }
        self.votes = Some((b, fresh));
    }

    /// Decides the slot when the votes at the accepted ballot make a quorum,
    /// and returns the decision, if any.
    pub fn resolution(&mut self) -> (r: Option<(Ballot, Bytes)>)
        requires
            old(self).wf(),
        ensures
            final(self).wf(),
            final(self)@ == old(self)@.on_resolution(),
            opt_pair_view(r) == final(self)@.resolved,
    {
        if let Some(res) = &self.resolved {
            return Some(clone_pair(res));
        }
        let reached = match (&self.accepted, &self.votes) {
            (Some(a), Some(vs)) => {
                proof {
                    vs.1@.unique_seq_to_set();
                }
                a.0 == vs.0 && (self.quorum == 0 || vs.1.len() >= self.quorum - 1)
            },
            _ => false,
        };
        if reached {
            let decided = clone_pair(self.accepted.as_ref().unwrap());
            self.resolved = Some(clone_pair(&decided));
            Some(decided)
        } else {
            None
        }
    }

    /// Records an authoritative decision; a decided slot keeps its decision.
    pub fn resolve(&mut self, b: Ballot, v: Bytes)
        requires
            old(self).wf(),
        ensures
            final(self).wf(),
            final(self)@ == old(self)@.on_resolve(b, bytes_of(v)),
    {
        if self.resolved.is_none() {
            let copy = v.clone();
            self.accepted = Some((b, v));
            self.resolved = Some((b, copy));
        }
    }

    /// The decision, if any, else the accepted pair.
    pub fn highest_value(&self) -> (r: Option<(Ballot, Bytes)>)
        ensures
            opt_pair_view(r) == self@.highest(),
    {
        match &self.resolved {
            Some(res) => Some(clone_pair(res)),
            None => match &self.accepted {
                Some(a) => Some(clone_pair(a)),
                None => None,
            },
        }
    }

    pub fn is_resolved(&self) -> (r: bool)
        ensures
            r == (self@.resolved is Some),
    {
        self.resolved.is_some()
    }

    pub fn resolved_value(&self) -> (r: Option<(Ballot, Bytes)>)
        ensures
            opt_pair_view(r) == self@.resolved,
    {
        match &self.resolved {
            Some(res) => Some(clone_pair(res)),
            None => None,
        }
    }
}

/// No phantom decisions: a slot becomes decided only when the votes at its
/// accepted ballot make a quorum, or by an authoritative resolution.
pub proof fn lemma_no_phantom_decisions(a: AcceptorView, b: Ballot, v: Seq<u8>, node: NodeId)
    requires
        a.resolved is None,
    ensures
        a.on_prepare(b).resolved is None,
        a.on_accept(b, v).resolved is None,
        a.on_notice(b, v).resolved is None,
        a.on_accepted(node, b).resolved is None,
        a.on_resolution().resolved is Some ==> a.quorum_reached()
            && a.on_resolution().resolved == a.accepted,
        a.on_resolve(b, v).resolved == Some((b, v)),
{
}

/// A decision, once reached, is never changed by any later operation.
pub proof fn lemma_decision_stable(a: AcceptorView, b: Ballot, v: Seq<u8>, node: NodeId)
    requires
        a.resolved is Some,
    ensures
        a.on_prepare(b).resolved == a.resolved,
        a.on_accept(b, v).resolved == a.resolved,
        a.on_notice(b, v).resolved == a.resolved,
        a.on_accepted(node, b).resolved == a.resolved,
        a.on_resolution().resolved == a.resolved,
        a.on_resolve(b, v) == a,
{
}

/// The same Accepted delivered twice leaves the votes as one delivery does.
pub proof fn lemma_accepted_idempotent(a: AcceptorView, node: NodeId, b: Ballot)
    ensures
        a.on_accepted(node, b).on_accepted(node, b) == a.on_accepted(node, b),
{
    let once = a.on_accepted(node, b);
    if once != a {
        if let Some(vs) = a.votes {
            if vs.0 == b {
                assert(vs.1.insert(node).insert(node) =~= vs.1.insert(node));
            } else {
                assert(set![node].insert(node) =~= set![node]);
            }
        } else {
            assert(set![node].insert(node) =~= set![node]);
        }
    }
}

/// A prepare at the ballot already promised is answered with a promise.
pub proof fn lemma_prepare_at_promised(a: AcceptorView, b: Ballot)
    requires
        a.promised == Some(b),
    ensures
        !a.prepare_rejects(b),
        a.on_prepare(b).promised == Some(b),
{
}

} // verus!
