use vstd::prelude::*;

verus! {

/// Identifier of a peer in the configuration.
pub type NodeId = u32;

/// Position in the replicated log.
pub type Slot = u64;

/// A proposal number `(round, node)`, ordered by round and then by node.
#[derive(PartialEq, Eq, Structural, Clone, Copy, Debug, Hash, PartialOrd, Ord)]
pub struct Ballot(pub u32, pub NodeId);

impl Ballot {
    /// `self` orders strictly before `other`.
    pub open spec fn is_below(self, other: Ballot) -> bool {
        self.0 < other.0 || (self.0 == other.0 && self.1 < other.1)
    }

    /// `self` orders before or equal to `other`.
    pub open spec fn is_at_most(self, other: Ballot) -> bool {
        self.is_below(other) || self == other
    }

    pub fn new(round: u32, node: NodeId) -> (b: Ballot)
        ensures
            b.0 == round,
            b.1 == node,
    {
        Ballot(round, node)
    }

    pub fn round(&self) -> (r: u32)
        ensures
            r == self.0,
    {
        self.0
    }

    pub fn node(&self) -> (n: NodeId)
        ensures
            n == self.1,
    {
        self.1
    }

    /// Strict comparison in ballot order.
    pub fn below(&self, other: &Ballot) -> (r: bool)
        ensures
            r == self.is_below(*other),
    {
        self.0 < other.0 || (self.0 == other.0 && self.1 < other.1)
    }
}

/// A ballot exceeds an optional one when the latter is absent or below it.
pub open spec fn exceeds(b: Ballot, o: Option<Ballot>) -> bool {
    match o {
        None => true,
        Some(c) => c.is_below(b),
    }
}

/// A ballot reaches an optional one when the latter is absent or at most it.
pub open spec fn reaches(b: Ballot, o: Option<Ballot>) -> bool {
    match o {
        None => true,
        Some(c) => c.is_at_most(b),
    }
}

/// An optional highest ballot did not go down from `before` to `after`.
pub open spec fn ballot_grew(before: Option<Ballot>, after: Option<Ballot>) -> bool {
    match before {
        None => true,
        Some(a) => after matches Some(b) && a.is_at_most(b),
    }
}

} // verus!
