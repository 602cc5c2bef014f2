use crate::ballot::{ballot_grew, exceeds, Ballot, NodeId};
use vstd::prelude::*;

verus! {

/// The role of the local proposer.
#[derive(PartialEq, Eq, Structural, Clone, Copy, Debug)]
pub enum ProposerStatus {
    Follower,
    Candidate,
    Leader,
}

/// The model of a proposer.
pub struct ProposerView {
    pub node: NodeId,
    /// Phase-1 quorum; the local node counts as one promise.
    pub quorum: nat,
    pub role: ProposerStatus,
    pub highest: Option<Ballot>,
    pub promises: Set<NodeId>,
}

impl ProposerView {
    pub open spec fn on_observe(self, b: Ballot) -> ProposerView {
        if exceeds(b, self.highest) {
            if b.1 != self.node && self.role != ProposerStatus::Follower {
                ProposerView {
                    highest: Some(b),
                    role: ProposerStatus::Follower,
                    promises: Set::empty(),
                    ..self
                }
            } else {
                ProposerView { highest: Some(b), ..self }
            }
        } else {
            self
        }
    }

    /// The round of the next ballot to mint.
    pub open spec fn next_round(self) -> int {
        match self.highest {
            None => 0,
            Some(h) => h.0 + 1,
        }
    }

    pub open spec fn on_prepare(self) -> ProposerView {
        ProposerView {
            role: ProposerStatus::Candidate,
            highest: Some(Ballot(self.next_round() as u32, self.node)),
            promises: Set::empty(),
            ..self
        }
    }

    pub open spec fn on_promise(self, node: NodeId, b: Ballot) -> ProposerView {
        if self.role == ProposerStatus::Candidate && self.highest == Some(b) {
            let promises = self.promises.insert(node);
            ProposerView {
                promises,
                role: if promises.len() + 1 >= self.quorum {
                    ProposerStatus::Leader
                } else {
                    ProposerStatus::Candidate
                },
                ..self
            }
        } else {
            self
        }
    }

    /// The role invariants: a candidate or leader acts on a ballot of its own.
    pub open spec fn roles_consistent(self) -> bool {
        self.role != ProposerStatus::Follower ==> (self.highest matches Some(h) && h.1 == self.node)
    }
}

/// The highest observed ballot never goes down: observing a ballot, minting
/// one, or counting a promise leaves it at least where it was.
pub proof fn lemma_highest_monotone(p: ProposerView, b: Ballot, node: NodeId)
    ensures
        ballot_grew(p.highest, p.on_observe(b).highest),
        p.next_round() <= u32::MAX ==> ballot_grew(p.highest, p.on_prepare().highest),
        ballot_grew(p.highest, p.on_promise(node, b).highest),
{
}

/// Ballot selection, phase-1 quorum tracking and role of the local node.
pub struct Proposer {
    node: NodeId,
    quorum: usize,
    role: ProposerStatus,
    highest: Option<Ballot>,
    promises: Vec<NodeId>,
}

impl View for Proposer {
    type V = ProposerView;

    closed spec fn view(&self) -> ProposerView {
        ProposerView {
            node: self.node,
            quorum: self.quorum as nat,
            role: self.role,
            highest: self.highest,
            promises: self.promises@.to_set(),
        }
    }
}

impl Proposer {
    pub closed spec fn wf(&self) -> bool {
        &&& self.promises@.no_duplicates()
        &&& self@.roles_consistent()
    }

    pub fn new(node: NodeId, quorum: usize) -> (p: Proposer)
        ensures
            p.wf(),
            p@ == (ProposerView {
                node,
                quorum: quorum as nat,
                role: ProposerStatus::Follower,
                highest: None,
                promises: Set::empty(),
            }),
    {
        let p = Proposer { node, quorum, role: ProposerStatus::Follower, highest: None, promises: Vec::new() };
        proof {
            assert(p.promises@.to_set() =~= Set::<NodeId>::empty());
        }
        p
    }

    pub fn status(&self) -> (r: ProposerStatus)
        ensures
            r == self@.role,
    {
        self.role
    }

    pub fn highest_observed_ballot(&self) -> (r: Option<Ballot>)
        ensures
            r == self@.highest,
    {
        self.highest
    }

    /// Raises the highest observed ballot to `b`; a ballot of another node
    /// that preempts this one demotes a candidate or leader.
    pub fn observe_ballot(&mut self, b: Ballot)
        requires
            old(self).wf(),
        ensures
            final(self).wf(),
            final(self)@ == old(self)@.on_observe(b),
    {
        let higher = match self.highest {
            None => true,
            Some(h) => h.below(&b),
        };
        if higher {
            self.highest = Some(b);
            if b.1 != self.node && self.role != ProposerStatus::Follower {
                self.role = ProposerStatus::Follower;
                self.promises = Vec::new();
                proof {
                    assert(self.promises@.to_set() =~= Set::<NodeId>::empty());
                }
            }
        }
    }

    /// Mints a ballot above every ballot observed and starts phase 1 with it.
    pub fn prepare(&mut self) -> (b: Ballot)
        requires
            old(self).wf(),
            old(self)@.next_round() <= u32::MAX,
        ensures
            final(self).wf(),
            final(self)@ == old(self)@.on_prepare(),
            b == Ballot(old(self)@.next_round() as u32, old(self)@.node),
            exceeds(b, old(self)@.highest),
    {
        let round: u32 = match self.highest {
            None => 0,
            Some(h) => h.0 + 1,
        };
        let b = Ballot(round, self.node);
        self.role = ProposerStatus::Candidate;
        self.highest = Some(b);
        self.promises = Vec::new();
        proof {
            assert(self.promises@.to_set() =~= Set::<NodeId>::empty());
        }
        b
    }

    /// Counts a promise for the ballot being prepared; a quorum makes this
    /// node the leader.
    pub fn receive_promise(&mut self, node: NodeId, b: Ballot)
        requires
            old(self).wf(),
        ensures
            final(self).wf(),
            final(self)@ == old(self)@.on_promise(node, b),
    {
        if self.role != ProposerStatus::Candidate || self.highest != Some(b) {
            return;
        }
        let ghost before = self.promises@;
        let mut seen = false;
        let mut i: usize = 0;
        while i < self.promises.len()
            invariant
                0 <= i <= self.promises.len(),
                seen <==> exists|k: int| 0 <= k < i && self.promises@[k] == node,
            decreases self.promises.len() - i,
        {
            if self.promises[i] == node {
                seen = true;
            }
            i = i + 1;
        }
        if !seen {
            self.promises.push(node);
            proof {
                before.lemma_push_to_set_commute(node);
                assert forall|i: int, j: int|
                    0 <= i < self.promises@.len() && 0 <= j < self.promises@.len() && i != j
                    implies self.promises@[i] != self.promises@[j] by {
                    if i == before.len() as int {
                        assert(before[j] == self.promises@[j]);
                    } else if j == before.len() as int {
                        assert(before[i] == self.promises@[i]);
                    }
                }
            }
        } else {
            proof {
                assert(before.to_set().contains(node));
                assert(before.to_set().insert(node) =~= before.to_set());
            }
        }
        proof {
            self.promises@.unique_seq_to_set();
        }
        if self.quorum == 0 || self.promises.len() >= self.quorum - 1 {
            self.role = ProposerStatus::Leader;
        }
    }

    /// A reject carries the ballot that preempted ours: observe it.
    pub fn receive_reject(&mut self, node: NodeId, proposed: Ballot, preempted: Ballot)
        requires
            old(self).wf(),
        ensures
            final(self).wf(),
            final(self)@ == old(self)@.on_observe(preempted),
    {
        self.observe_ballot(preempted);
    }

    /// A candidate or leader of a well-formed proposer acts on its own ballot.
    pub proof fn lemma_roles(&self)
        requires
            self.wf(),
        ensures
            self@.roles_consistent(),
    {
    }
}

} // verus!
