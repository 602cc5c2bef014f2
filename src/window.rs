use crate::acceptor::{AcceptResponse, Acceptor, AcceptorView, PrepareResponse};
use crate::ballot::{reaches, Ballot, NodeId, Slot};
use crate::value::{bytes_of, opt_pair_view};
use bytes::Bytes;
use vstd::prelude::*;

verus! {

/// What a slot of the window holds.
pub enum SlotEntry {
    /// A hole: no acceptor state yet.
    Empty,
    /// An acceptor; once it has a decision the slot counts as resolved.
    Open(Acceptor),
}

/// The four states of a slot, as callers see them.
#[derive(PartialEq, Eq, Structural, Clone, Copy, Debug)]
pub enum SlotKind {
    /// Decided, applied and reclaimed: below the window.
    Truncated,
    /// No acceptor state yet.
    Empty,
    /// An acceptor without a decision.
    Open,
    /// An acceptor with a decision that is not applied yet.
    Resolved,
    /// The last slot number, which the window never materialises.
    OutOfRange,
}

/// The model of a slot inside the window.
pub enum SlotModel {
    Empty,
    Open(AcceptorView),
}

pub open spec fn model_kind(m: SlotModel) -> SlotKind {
    match m {
        SlotModel::Empty => SlotKind::Empty,
        SlotModel::Open(a) => if a.resolved is Some {
            SlotKind::Resolved
        } else {
            SlotKind::Open
        },
    }
}

/// The model of the window: slots `[lo, lo + slots.len())`.
pub struct WindowView {
    pub lo: nat,
    pub slots: Seq<SlotModel>,
    pub quorum: nat,
    /// The promise of every slot without acceptor state: holes and the
    /// slots from `hi` on.
    pub promised: Option<Ballot>,
}

impl WindowView {
    /// The acceptor that a slot without state starts with.
    pub open spec fn fresh(self) -> AcceptorView {
        AcceptorView::fresh(self.quorum, self.promised)
    }

    /// A prepare at `b` reaching the slots without state: they promise `b`
    /// unless they promised a higher ballot.
    pub open spec fn on_prepare_stateless(self, b: Ballot) -> WindowView {
        if reaches(b, self.promised) {
            WindowView { promised: Some(b), ..self }
        } else {
            self
        }
    }

    pub open spec fn hi(self) -> nat {
        self.lo + self.slots.len()
    }

    pub open spec fn contains(self, s: int) -> bool {
        self.lo <= s < self.hi()
    }

    pub open spec fn entry(self, s: int) -> SlotModel {
        self.slots[s - self.lo]
    }

    /// The state of slot `s`; a slot at or above `hi` is an unborn hole.
    pub open spec fn kind(self, s: int) -> SlotKind {
        if s < self.lo {
            SlotKind::Truncated
        } else if s >= u64::MAX {
            SlotKind::OutOfRange
        } else if s >= self.hi() {
            SlotKind::Empty
        } else {
            model_kind(self.entry(s))
        }
    }

    pub open spec fn acceptor(self, s: int) -> AcceptorView {
        self.entry(s)->Open_0
    }

    /// The window after slot `s` is looked up: it reaches `s` when `s` was
    /// at or above `hi` and can be materialised.
    pub open spec fn extended(self, s: int) -> WindowView {
        if s >= self.hi() && s < u64::MAX {
            WindowView {
                slots: self.slots + Seq::new((s + 1 - self.hi()) as nat, |i: int| SlotModel::Empty),
                ..self
            }
        } else {
            self
        }
    }

    pub open spec fn with_entry(self, s: int, m: SlotModel) -> WindowView {
        WindowView { slots: self.slots.update(s - self.lo, m), ..self }
    }

    pub open spec fn with_acceptor(self, s: int, a: AcceptorView) -> WindowView {
        self.with_entry(s, SlotModel::Open(a))
    }

    /// Slot `s` holds an acceptor, decided or not.
    pub open spec fn is_open(self, s: int) -> bool {
        self.contains(s) && self.entry(s) is Open
    }

    /// The first `k` slots are decided and slot `lo + k` is not (or absent).
    pub open spec fn ready_count(self, k: nat) -> bool {
        &&& k <= self.slots.len()
        &&& forall|i: int| 0 <= i < k ==> #[trigger] model_kind(self.slots[i]) == SlotKind::Resolved
        &&& k < self.slots.len() ==> model_kind(self.slots[k as int]) != SlotKind::Resolved
    }

    /// The window once its first `k` slots are truncated.
    pub open spec fn truncated(self, k: nat) -> WindowView {
        WindowView { lo: self.lo + k, slots: self.slots.skip(k as int), ..self }
    }
}

/// The slots of the log that this replica tracks.
pub struct SlotWindow {
    lo: Slot,
    slots: Vec<SlotEntry>,
    quorum: usize,
    promised: Option<Ballot>,
}

pub open spec fn entry_view(e: SlotEntry) -> SlotModel {
    match e {
        SlotEntry::Empty => SlotModel::Empty,
        SlotEntry::Open(a) => SlotModel::Open(a@),
    }
}

impl View for SlotWindow {
    type V = WindowView;

    closed spec fn view(&self) -> WindowView {
        WindowView {
            lo: self.lo as nat,
            slots: Seq::new(self.slots@.len(), |i: int| entry_view(self.slots@[i])),
            quorum: self.quorum as nat,
            promised: self.promised,
        }
    }
}

impl SlotWindow {
    pub closed spec fn wf(&self) -> bool {
        &&& self.lo + self.slots@.len() <= u64::MAX
        &&& forall|i: int| 0 <= i < self.slots@.len() ==> match #[trigger] self.slots@[i] {
            SlotEntry::Empty => true,
            SlotEntry::Open(a) => a.wf() && a@.quorum == self.quorum,
        }
    }

    pub fn new(quorum: usize) -> (w: SlotWindow)
        ensures
            w.wf(),
            w@ == (WindowView { lo: 0, slots: Seq::empty(), quorum: quorum as nat, promised: None }),
    {
        let w = SlotWindow { lo: 0, slots: Vec::new(), quorum, promised: None };
        proof {
            assert(w@.slots =~= Seq::<SlotModel>::empty());
        }
        w
    }

    /// The tracked range `[lo, hi)`.
    pub fn open_range(&self) -> (r: (Slot, Slot))
        requires
            self.wf(),
        ensures
            r.0 == self@.lo,
            r.1 == self@.hi(),
    {
        (self.lo, self.lo + self.slots.len() as u64)
    }

    /// The state of slot `s`, without changing the window.
    pub fn kind(&self, s: Slot) -> (k: SlotKind)
        requires
            self.wf(),
        ensures
            k == self@.kind(s as int),
    {
        if s < self.lo {
            return SlotKind::Truncated;
        }
        if s == u64::MAX {
            return SlotKind::OutOfRange;
        }
        let i = s - self.lo;
        if i >= self.slots.len() as u64 {
            return SlotKind::Empty;
        }
        match &self.slots[i as usize] {
            SlotEntry::Empty => SlotKind::Empty,
            SlotEntry::Open(a) => if a.is_resolved() {
                SlotKind::Resolved
            } else {
                SlotKind::Open
            },
        }
    }

    /// Looks up slot `s`, first extending the window with holes up to `s`
    /// when `s` lies at or above `hi`.
    pub fn slot_mut(&mut self, s: Slot) -> (k: SlotKind)
        requires
            old(self).wf(),
        ensures
            final(self).wf(),
            final(self)@ == old(self)@.extended(s as int),
            k == old(self)@.kind(s as int),
            k == final(self)@.kind(s as int),
            (k == SlotKind::Empty || k == SlotKind::Open || k == SlotKind::Resolved)
                ==> final(self)@.contains(s as int),
    {
        let k = self.kind(s);
        if k == SlotKind::Empty {
            let hi = self.lo + self.slots.len() as u64;
            if s >= hi {
                let ghost start = self@;
                let mut cur = hi;
                while cur <= s
                    invariant
                        self.wf(),
                        hi <= cur <= s + 1,
                        s < u64::MAX,
                        cur == self.lo + self.slots@.len(),
                        self.lo == start.lo,
                        self.quorum == start.quorum,
                        self.promised == start.promised,
                        self@.slots =~= start.slots + Seq::new((cur - hi) as nat, |i: int| SlotModel::Empty),
                    decreases s + 1 - cur,
                {
                    let ghost prev = self@.slots;
                    self.slots.push(SlotEntry::Empty);
                    cur = cur + 1;
                    proof {
                        assert(self@.slots =~= prev.push(SlotModel::Empty));
                        assert(self@.slots =~= start.slots + Seq::new((cur - hi) as nat, |i: int| SlotModel::Empty));
                    }
                }
            }
        }
        k
    }

    /// Materialises an acceptor in the hole at `s`.
    pub fn fill(&mut self, s: Slot)
        requires
            old(self).wf(),
            old(self)@.contains(s as int),
            old(self)@.entry(s as int) is Empty,
        ensures
            final(self).wf(),
            final(self)@ == old(self)@.with_acceptor(s as int, old(self)@.fresh()),
    {
        let i = self.index_of(s);
        self.slots.set(i, SlotEntry::Open(Acceptor::new(self.quorum, self.promised)));
        proof {
            assert(self@.slots =~= old(self)@.with_acceptor(s as int, old(self)@.fresh()).slots);
        }
    }

    /// Materialises an acceptor at `hi` and returns its slot; `None` once
    /// every slot number is used.
    pub fn next_slot(&mut self) -> (r: Option<Slot>)
        requires
            old(self).wf(),
        ensures
            final(self).wf(),
            old(self)@.hi() < u64::MAX ==> r == Some(old(self)@.hi() as Slot)
                && final(self)@ == (WindowView {
                    slots: old(self)@.slots.push(SlotModel::Open(old(self)@.fresh())),
                    ..old(self)@
                }),
            old(self)@.hi() >= u64::MAX ==> r is None && final(self)@ == old(self)@,
    {
        let hi = self.lo + self.slots.len() as u64;
        if hi == u64::MAX {
            return None;
        }
        self.slots.push(SlotEntry::Open(Acceptor::new(self.quorum, self.promised)));
        proof {
            assert(self@.slots =~= old(self)@.slots.push(SlotModel::Open(old(self)@.fresh())));
        }
        Some(hi)
    }

    /// Takes the acceptor of slot `s` out of the window, leaving a hole.
    fn take_acceptor(&mut self, s: Slot) -> (a: Acceptor)
        requires
            old(self).wf(),
            old(self)@.is_open(s as int),
        ensures
            a.wf(),
            a@ == old(self)@.acceptor(s as int),
            a@.quorum == old(self)@.quorum,
            final(self).wf(),
            final(self)@ == old(self)@.with_entry(s as int, SlotModel::Empty),
    {
        let i = self.index_of(s);
        let ghost prev = self.slots@;
        self.slots.push(SlotEntry::Empty);
        let e = self.slots.swap_remove(i);
        proof {
            assert(e == prev[i as int]);
            assert(self.slots@ =~= prev.update(i as int, SlotEntry::Empty));
            assert(self@.slots =~= old(self)@.with_entry(s as int, SlotModel::Empty).slots);
        }
        match e {
            SlotEntry::Open(a) => a,
            SlotEntry::Empty => {
                proof {
                    assert(false);
                }
                Acceptor::new(self.quorum, self.promised)
            },
        }
    }

    /// Puts an acceptor into slot `s`.
    fn put_acceptor(&mut self, s: Slot, a: Acceptor)
        requires
            old(self).wf(),
            old(self)@.contains(s as int),
            a.wf(),
            a@.quorum == old(self)@.quorum,
        ensures
            final(self).wf(),
            final(self)@ == old(self)@.with_acceptor(s as int, a@),
    {
        let i = self.index_of(s);
        self.slots.set(i, SlotEntry::Open(a));
        proof {
            assert(self@.slots =~= old(self)@.with_acceptor(s as int, a@).slots);
        }
    }

    /// A prepare at `b` to the acceptor of slot `s`.
    pub fn receive_prepare(&mut self, s: Slot, b: Ballot) -> (r: PrepareResponse)
        requires
            old(self).wf(),
            old(self)@.is_open(s as int),
        ensures
            final(self).wf(),
            final(self)@ == old(self)@.with_acceptor(s as int, old(self)@.acceptor(s as int).on_prepare(b)),
            r is Reject <==> old(self)@.acceptor(s as int).prepare_rejects(b),
            r matches PrepareResponse::Promise { proposed, value } ==> proposed == b
                && opt_pair_view(value) == old(self)@.acceptor(s as int).highest(),
            r matches PrepareResponse::Reject { proposed, preempted } ==> proposed == b
                && old(self)@.acceptor(s as int).promised == Some(preempted),
    {
        let mut a = self.take_acceptor(s);
        let r = a.receive_prepare(b);
        self.put_acceptor(s, a);
        proof {
            assert(self@.slots =~= old(self)@.with_acceptor(s as int, old(self)@.acceptor(s as int).on_prepare(b)).slots);
        }
        r
    }

    /// An accept of `v` at `b` to the acceptor of slot `s`.
    pub fn receive_accept(&mut self, s: Slot, b: Ballot, v: Bytes) -> (r: AcceptResponse)
        requires
            old(self).wf(),
            old(self)@.is_open(s as int),
        ensures
            final(self).wf(),
            final(self)@ == old(self)@.with_acceptor(
                s as int,
                old(self)@.acceptor(s as int).on_accept(b, bytes_of(v)),
            ),
            r is NoChange <==> old(self)@.acceptor(s as int).resolved is Some,
            r is Reject <==> old(self)@.acceptor(s as int).accept_rejects(b),
            r matches AcceptResponse::Accepted { proposed } ==> proposed == b,
            r matches AcceptResponse::Reject { proposed, preempted } ==> proposed == b
                && old(self)@.acceptor(s as int).promised == Some(preempted),
    {
        let mut a = self.take_acceptor(s);
        let r = a.receive_accept(b, v);
        self.put_acceptor(s, a);
        proof {
            assert(self@.slots =~= old(self)@.with_acceptor(
                s as int,
                old(self)@.acceptor(s as int).on_accept(b, bytes_of(v)),
            ).slots);
        }
        r
    }

    /// Binds `(b, v)` to the acceptor of slot `s` when `b` is higher.
    pub fn notice_value(&mut self, s: Slot, b: Ballot, v: Bytes)
        requires
            old(self).wf(),
            old(self)@.is_open(s as int),
        ensures
            final(self).wf(),
            final(self)@ == old(self)@.with_acceptor(
                s as int,
                old(self)@.acceptor(s as int).on_notice(b, bytes_of(v)),
            ),
    {
        let mut a = self.take_acceptor(s);
        a.notice_value(b, v);
        self.put_acceptor(s, a);
        proof {
            assert(self@.slots =~= old(self)@.with_acceptor(
                s as int,
                old(self)@.acceptor(s as int).on_notice(b, bytes_of(v)),
            ).slots);
        }
    }

    /// A vote of `node` at `b` for slot `s`.
    pub fn receive_accepted(&mut self, s: Slot, node: NodeId, b: Ballot)
        requires
            old(self).wf(),
            old(self)@.is_open(s as int),
        ensures
            final(self).wf(),
            final(self)@ == old(self)@.with_acceptor(
                s as int,
                old(self)@.acceptor(s as int).on_accepted(node, b),
            ),
    {
        let mut a = self.take_acceptor(s);
        a.receive_accepted(node, b);
        self.put_acceptor(s, a);
        proof {
            assert(self@.slots =~= old(self)@.with_acceptor(
                s as int,
                old(self)@.acceptor(s as int).on_accepted(node, b),
            ).slots);
        }
    }

    /// Decides slot `s` when its votes make a quorum; returns its decision.
    pub fn resolution(&mut self, s: Slot) -> (r: Option<(Ballot, Bytes)>)
        requires
            old(self).wf(),
            old(self)@.is_open(s as int),
        ensures
            final(self).wf(),
            final(self)@ == old(self)@.with_acceptor(
                s as int,
                old(self)@.acceptor(s as int).on_resolution(),
            ),
            opt_pair_view(r) == old(self)@.acceptor(s as int).on_resolution().resolved,
    {
        let mut a = self.take_acceptor(s);
        let r = a.resolution();
        self.put_acceptor(s, a);
        proof {
            assert(self@.slots =~= old(self)@.with_acceptor(
                s as int,
                old(self)@.acceptor(s as int).on_resolution(),
            ).slots);
        }
        r
    }

    /// Records an authoritative decision for slot `s`.
    pub fn resolve(&mut self, s: Slot, b: Ballot, v: Bytes)
        requires
            old(self).wf(),
            old(self)@.is_open(s as int),
        ensures
            final(self).wf(),
            final(self)@ == old(self)@.with_acceptor(
                s as int,
                old(self)@.acceptor(s as int).on_resolve(b, bytes_of(v)),
            ),
    {
        let mut a = self.take_acceptor(s);
        a.resolve(b, v);
        self.put_acceptor(s, a);
        proof {
            assert(self@.slots =~= old(self)@.with_acceptor(
                s as int,
                old(self)@.acceptor(s as int).on_resolve(b, bytes_of(v)),
            ).slots);
        }
    }

    /// The highest-ballot value known for slot `s`.
    pub fn highest_value(&self, s: Slot) -> (r: Option<(Ballot, Bytes)>)
        requires
            self.wf(),
            self@.is_open(s as int),
        ensures
            opt_pair_view(r) == self@.acceptor(s as int).highest(),
    {
        let i = self.index_of(s);
        match &self.slots[i] {
            SlotEntry::Open(a) => a.highest_value(),
            SlotEntry::Empty => {
                proof {
                    assert(entry_view(self.slots@[i as int]) is Open);
                }
                None
            },
        }
    }

    /// The decision of slot `s`, if any.
    pub fn resolved_value(&self, s: Slot) -> (r: Option<(Ballot, Bytes)>)
        requires
            self.wf(),
            self@.is_open(s as int),
        ensures
            opt_pair_view(r) == self@.acceptor(s as int).resolved,
    {
        let i = self.index_of(s);
        match &self.slots[i] {
            SlotEntry::Open(a) => a.resolved_value(),
            SlotEntry::Empty => {
                proof {
                    assert(entry_view(self.slots@[i as int]) is Open);
                }
                None
            },
        }
    }

    /// Position of slot `s` in the backing vector.
    fn index_of(&self, s: Slot) -> (i: usize)
        requires
            self.wf(),
            self@.contains(s as int),
        ensures
            i == s - self@.lo,
            i < self.slots@.len(),
    {
        let len = self.slots.len();
        let d = s - self.lo;
        assert(d < len);
        d as usize
    }

    /// Hands out, in slot order, every decided slot at the front of the
    /// window, and truncates those slots.
    pub fn drain_decisions(&mut self) -> (out: Vec<(Slot, Bytes)>)
        requires
            old(self).wf(),
        ensures
            final(self).wf(),
            old(self)@.ready_count(out@.len() as nat),
            final(self)@ == old(self)@.truncated(out@.len() as nat),
            forall|i: int| 0 <= i < out@.len() ==> (#[trigger] out@[i]).0 == old(self)@.lo + i
                && bytes_of(out@[i].1) == old(self)@.slots[i]->Open_0.resolved->Some_0.1,
    {
        let mut out: Vec<(Slot, Bytes)> = Vec::new();
        let mut k: usize = 0;
        let mut done = false;
        while k < self.slots.len() && !done
            invariant
                self.wf(),
                self@ == old(self)@,
                k <= self.slots@.len(),
                out@.len() == k,
                forall|i: int| 0 <= i < k ==> #[trigger] model_kind(self@.slots[i]) == SlotKind::Resolved,
                done ==> k < self.slots@.len() && model_kind(self@.slots[k as int]) != SlotKind::Resolved,
                forall|i: int| 0 <= i < out@.len() ==> (#[trigger] out@[i]).0 == self@.lo + i
                    && bytes_of(out@[i].1) == self@.slots[i]->Open_0.resolved->Some_0.1,
            decreases self.slots@.len() - k, if done { 0int } else { 1int },
        {
            let decided = match &self.slots[k] {
                SlotEntry::Open(a) => a.resolved_value(),
                SlotEntry::Empty => None,
            };
            match decided {
                Some(d) => {
                    out.push((self.lo + k as u64, d.1));
                    k = k + 1;
                },
                None => {
                    done = true;
                },
            }
        }
        let rest = self.slots.split_off(k);
        self.slots = rest;
        self.lo = self.lo + k as u64;
        proof {
            assert(self@.slots =~= old(self)@.slots.skip(k as int));
        }
        out
    }

    /// Every slot of a well-formed window has a number.
    pub proof fn lemma_bounded(&self)
        requires
            self.wf(),
        ensures
            self@.hi() <= u64::MAX,
    {
    }

    /// A prepare at `b` for the slots without state; returns the higher
    /// ballot they promised, if any, in which case nothing changes.
    pub fn prepare_stateless(&mut self, b: Ballot) -> (r: Option<Ballot>)
        requires
            old(self).wf(),
        ensures
            final(self).wf(),
            final(self)@ == old(self)@.on_prepare_stateless(b),
            r is Some <==> !reaches(b, old(self)@.promised),
            r is Some ==> r == old(self)@.promised,
    {
        match self.promised {
            Some(p) if b.below(&p) => Some(p),
            _ => {
                self.promised = Some(b);
                None
            },
        }
    }
}

} // verus!
