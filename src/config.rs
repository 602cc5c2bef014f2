use crate::ballot::NodeId;
use vstd::prelude::*;

verus! {

/// The peers of `ids`, in order of first appearance, without `current` and
/// without repeats.
pub open spec fn peer_list(ids: Seq<NodeId>, current: NodeId) -> Seq<NodeId>
    decreases ids.len(),
{
    if ids.len() == 0 {
        Seq::empty()
    } else {
        let rest = peer_list(ids.drop_last(), current);
        let n = ids.last();
        if n == current || rest.contains(n) {
            rest
        } else {
            rest.push(n)
        }
    }
}

/// A majority of a cluster of `n` nodes.
pub open spec fn majority(n: nat) -> nat {
    n / 2 + 1
}

proof fn lemma_peer_list(ids: Seq<NodeId>, current: NodeId)
    ensures
        peer_list(ids, current).no_duplicates(),
        !peer_list(ids, current).contains(current),
        forall|n: NodeId| #[trigger] peer_list(ids, current).contains(n)
            <==> (ids.contains(n) && n != current),
    decreases ids.len(),
{
    if ids.len() > 0 {
        let rest = peer_list(ids.drop_last(), current);
        lemma_peer_list(ids.drop_last(), current);
        let n = ids.last();
        assert forall|m: NodeId| ids.contains(m) <==> (ids.drop_last().contains(m) || m == n) by {
            if ids.contains(m) {
                let k = choose|k: int| 0 <= k < ids.len() && ids[k] == m;
                if k < ids.len() - 1 {
                    assert(ids.drop_last()[k] == m);
                }
            }
            if ids.drop_last().contains(m) {
                let k = choose|k: int| 0 <= k < ids.len() - 1 && ids.drop_last()[k] == m;
                assert(ids[k] == m);
            }
            if m == n {
                assert(ids[ids.len() - 1] == m);
            }
        }
        if !(n == current || rest.contains(n)) {
            let p = rest.push(n);
            assert forall|m: NodeId| p.contains(m) <==> (rest.contains(m) || m == n) by {
                if p.contains(m) {
                    let k = choose|k: int| 0 <= k < p.len() && p[k] == m;
                    if k < rest.len() {
                        assert(rest[k] == m);
                    }
                }
                if rest.contains(m) {
                    let k = choose|k: int| 0 <= k < rest.len() && rest[k] == m;
                    assert(p[k] == m);
                }
                if m == n {
                    assert(p[rest.len() as int] == m);
                }
            }
        }
    }
}

/// The nodes of a cluster: the local node and its peers.
pub struct Configuration {
    current: NodeId,
    peers: Vec<NodeId>,
}

impl Configuration {
    /// The local node.
    pub closed spec fn node(&self) -> NodeId {
        self.current
    }

    /// The peers, without the local node and without repeats.
    pub closed spec fn peer_ids(&self) -> Seq<NodeId> {
        self.peers@
    }

    pub closed spec fn wf(&self) -> bool {
        &&& self.peers@.no_duplicates()
        &&& !self.peers@.contains(self.current)
    }

    /// Builds the configuration of `current` and the listed nodes; the local
    /// node and repeated ids are left out of the peers.
    pub fn new(current: NodeId, ids: Vec<NodeId>) -> (c: Configuration)
        ensures
            c.wf(),
            c.node() == current,
            c.peer_ids() == peer_list(ids@, current),
            forall|n: NodeId| #[trigger] c.peer_ids().contains(n)
                <==> (ids@.contains(n) && n != current),
    {
        let mut peers: Vec<NodeId> = Vec::new();
        let mut i: usize = 0;
        while i < ids.len()
            invariant
                0 <= i <= ids.len(),
                peers@ == peer_list(ids@.take(i as int), current),
            decreases ids.len() - i,
        {
            let n = ids[i];
            let mut seen = n == current;
            let mut j: usize = 0;
            while j < peers.len() && !seen
                invariant
                    0 <= j <= peers.len(),
                    seen ==> (n == current || peers@.contains(n)),
                    !seen ==> n != current && forall|k: int| 0 <= k < j ==> peers@[k] != n,
                decreases peers.len() - j,
            {
                if peers[j] == n {
                    seen = true;
                }
                j = j + 1;
            }
            proof {
                assert(ids@.take(i + 1).drop_last() =~= ids@.take(i as int));
                assert(ids@.take(i + 1).last() == n);
            }
            if !seen {
                peers.push(n);
            }
            i = i + 1;
        }
        proof {
            assert(ids@.take(ids@.len() as int) =~= ids@);
            lemma_peer_list(ids@, current);
        }
        Configuration { current, peers }
    }

    pub fn current(&self) -> (n: NodeId)
        ensures
            n == self.node(),
    {
        self.current
    }

    pub fn peers(&self) -> (p: &Vec<NodeId>)
        ensures
            p@ == self.peer_ids(),
    {
        &self.peers
    }

    /// Phase-1 and phase-2 quorum sizes: both a majority of the cluster.
    pub fn quorum_size(&self) -> (q: (usize, usize))
        ensures
            q.0 == majority(self.peer_ids().len() + 1),
            q.1 == majority(self.peer_ids().len() + 1),
    {
        let n = self.peers.len();
        let q = n / 2 + n % 2 + 1;
        (q, q)
    }
}

} // verus!
