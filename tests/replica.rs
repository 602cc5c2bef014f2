use bytes::Bytes;
use paxos::{Ballot, Command, Configuration, Output, ProposerStatus, Replica, SlotKind, Slot};

/// Collects what a replica sends to nodes 0 to 3 and what it applies.
#[derive(Default)]
struct VecSender([Vec<Command>; 4], Vec<(Slot, Bytes)>);

impl VecSender {
    fn deliver(&mut self, out: Output) {
        for (node, command) in out.messages {
            assert!(node < 4);
            self.0[node as usize].push(command);
        }
        self.1.extend(out.decisions);
    }

    fn clear(&mut self) {
        for i in 0usize..4 {
            self.0[i].clear();
        }
    }

    fn to(&self, n: usize) -> &[Command] {
        &self.0[n]
    }

    fn resolutions(&self) -> &[(Slot, Bytes)] {
        &self.1
    }
}

fn config() -> Configuration {
    Configuration::new(4u32, vec![0, 1, 2, 3])
}

fn replica() -> Replica<VecSender> {
    Replica::new(VecSender::default(), config())
}

fn proposal(r: &mut Replica<VecSender>, v: &'static str) {
    let out = r.proposal(Bytes::from(v));
    r.sender_mut().deliver(out);
}

fn prepare(r: &mut Replica<VecSender>, b: Ballot) {
    let out = r.prepare(b);
    r.sender_mut().deliver(out);
}

fn promise(r: &mut Replica<VecSender>, node: u32, b: Ballot, acc: Vec<(Slot, Ballot, Bytes)>) {
    let out = r.promise(node, b, acc);
    r.sender_mut().deliver(out);
}

fn accept(r: &mut Replica<VecSender>, slot: Slot, b: Ballot, v: Bytes) {
    let out = r.accept(slot, b, v);
    r.sender_mut().deliver(out);
}

fn accepted(r: &mut Replica<VecSender>, node: u32, slot: Slot, b: Ballot) {
    let out = r.accepted(node, slot, b);
    r.sender_mut().deliver(out);
}

fn resolution(r: &mut Replica<VecSender>, slot: Slot, b: Ballot, v: Bytes) {
    let out = r.resolution(slot, b, v);
    r.sender_mut().deliver(out);
}

fn highest(r: &Replica<VecSender>) -> Option<Ballot> {
    r.proposer().highest_observed_ballot()
}

#[test]
fn replica_proposal() {
    let mut replica = replica();

    proposal(&mut replica, "123");
    assert_eq!(Some(Ballot(0, 4)), highest(&replica));
    for i in 0..4 {
        assert_eq!(&[Command::Prepare(Ballot(0, 4))], replica.sender().to(i));
    }
    assert_eq!(ProposerStatus::Candidate, replica.proposer().status());
    replica.sender_mut().clear();

    proposal(&mut replica, "456");
    assert_eq!(Some(Ballot(0, 4)), highest(&replica));
    for i in 0..4 {
        assert!(replica.sender().to(i).is_empty());
    }

    assert!(replica.sender().resolutions().is_empty());
}

#[test]
fn replica_proposal_redirection() {
    let mut replica = replica();
    prepare(&mut replica, Ballot(0, 3));
    assert_eq!(Some(Ballot(0, 3)), highest(&replica));
    replica.sender_mut().clear();

    proposal(&mut replica, "123");
    assert!(replica.sender().to(0).is_empty());
    assert!(replica.sender().to(1).is_empty());
    assert!(replica.sender().to(2).is_empty());
    assert_eq!(&[Command::Proposal("123".into())], replica.sender().to(3));

    assert!(replica.sender().resolutions().is_empty());
}

#[test]
fn replica_prepare() {
    let mut replica = replica();

    prepare(&mut replica, Ballot(1, 0));
    assert_eq!(Some(Ballot(1, 0)), highest(&replica));
    assert_eq!(&[Command::Promise(4, Ballot(1, 0), Vec::new())], replica.sender().to(0));
    assert!(replica.sender().to(1).is_empty());
    assert!(replica.sender().to(2).is_empty());
    assert!(replica.sender().to(3).is_empty());
    replica.sender_mut().clear();

    prepare(&mut replica, Ballot(0, 2));
    assert_eq!(Some(Ballot(1, 0)), highest(&replica));
    assert!(replica.sender().to(0).is_empty());
    assert!(replica.sender().to(1).is_empty());
    assert_eq!(&[Command::Reject(4, Ballot(0, 2), Ballot(1, 0))], replica.sender().to(2));
    assert!(replica.sender().to(3).is_empty());

    assert!(replica.sender().resolutions().is_empty());
}

#[test]
fn replica_promise_without_existing_accepted_value() {
    let mut replica = replica();
    proposal(&mut replica, "123");
    assert_eq!(Some(Ballot(0, 4)), highest(&replica));
    replica.sender_mut().clear();

    promise(&mut replica, 0, Ballot(0, 4), Vec::new());
    (0..4).for_each(|i| assert!(replica.sender().to(i).is_empty()));

    promise(&mut replica, 2, Ballot(0, 4), Vec::new());
    (0..4).for_each(|i| {
        assert_eq!(&[Command::Accept(0, Ballot(0, 4), "123".into())], replica.sender().to(i))
    });

    assert!(replica.sender().resolutions().is_empty());
}

#[test]
fn replica_promise_with_existing_accepted_value() {
    let mut replica = replica();
    proposal(&mut replica, "123");
    assert_eq!(Some(Ballot(0, 4)), highest(&replica));
    replica.sender_mut().clear();

    promise(&mut replica, 1, Ballot(0, 4), vec![(0, Ballot(0, 0), "456".into())]);
    (0..4).for_each(|i| assert!(replica.sender().to(i).is_empty()));

    promise(&mut replica, 2, Ballot(0, 4), vec![]);
    (0..4).for_each(|i| {
        assert_eq!(
            &[
                Command::Accept(0, Ballot(0, 4), "456".into()),
                Command::Accept(1, Ballot(0, 4), "123".into())
            ],
            replica.sender().to(i)
        )
    });

    assert!(replica.sender().resolutions().is_empty());
}

#[test]
fn replica_promise_with_slot_holes() {
    let mut replica = replica();
    proposal(&mut replica, "123");
    assert_eq!(Some(Ballot(0, 4)), highest(&replica));
    replica.sender_mut().clear();

    promise(&mut replica, 1, Ballot(0, 4), vec![(2, Ballot(0, 0), "456".into())]);
    (0..4).for_each(|i| assert!(replica.sender().to(i).is_empty()));

    promise(&mut replica, 2, Ballot(0, 4), vec![]);
    (0..4).for_each(|i| {
        assert_eq!(
            &[
                Command::Accept(0, Ballot(0, 4), Bytes::default()),
                Command::Accept(1, Ballot(0, 4), Bytes::default()),
                Command::Accept(2, Ballot(0, 4), "456".into()),
                Command::Accept(3, Ballot(0, 4), "123".into())
            ],
            replica.sender().to(i)
        );
    });

    assert!(replica.sender().resolutions().is_empty());
}

#[test]
fn replica_accept() {
    let mut replica = replica();
    prepare(&mut replica, Ballot(8, 2));
    assert_eq!(Some(Ballot(8, 2)), highest(&replica));
    replica.sender_mut().clear();

    accept(&mut replica, 0, Ballot(1, 1), "123".into());
    assert_eq!(&[Command::Reject(4, Ballot(1, 1), Ballot(8, 2))], replica.sender().to(1));
    replica.sender_mut().clear();

    accept(&mut replica, 0, Ballot(8, 2), "456".into());
    assert_eq!(Some(Ballot(8, 2)), highest(&replica));
    assert_eq!(&[Command::Accepted(4, 0, Ballot(8, 2))], replica.sender().to(2));
    replica.sender_mut().clear();

    accept(&mut replica, 0, Ballot(9, 2), "789".into());
    assert_eq!(Some(Ballot(9, 2)), highest(&replica));
    assert_eq!(&[Command::Accepted(4, 0, Ballot(9, 2))], replica.sender().to(2));

    assert!(replica.sender().resolutions().is_empty());
}

#[test]
fn replica_reject() {
    let mut replica = replica();
    proposal(&mut replica, "123");
    assert_eq!(Some(Ballot(0, 4)), highest(&replica));
    replica.sender_mut().clear();

    let out = replica.reject(2, Ballot(0, 4), Ballot(5, 3));
    replica.sender_mut().deliver(out);
    assert_eq!(Some(Ballot(5, 3)), highest(&replica));
    assert_eq!(ProposerStatus::Follower, replica.proposer().status());
    assert_eq!(&[Command::Proposal("123".into())], replica.sender().to(3));
    (0..3).for_each(|i| assert!(replica.sender().to(i).is_empty()));

    assert!(replica.sender().resolutions().is_empty());
}

#[test]
fn replica_accepted() {
    let mut replica = replica();
    proposal(&mut replica, "123");
    assert_eq!(Some(Ballot(0, 4)), highest(&replica));
    promise(&mut replica, 1, Ballot(0, 4), vec![]);
    promise(&mut replica, 0, Ballot(0, 4), vec![]);
    promise(&mut replica, 2, Ballot(0, 4), vec![]);
    replica.sender_mut().clear();

    accepted(&mut replica, 0, 0, Ballot(0, 4));
    (0..4).for_each(|i| assert!(replica.sender().to(i).is_empty()));

    accepted(&mut replica, 2, 0, Ballot(0, 4));
    (0..4).for_each(|i| {
        assert_eq!(&[Command::Resolution(0, Ballot(0, 4), "123".into())], replica.sender().to(i))
    });

    assert_eq!(&[(0, Bytes::from("123"))], replica.sender().resolutions());
}

#[test]
fn replica_resolution() {
    let mut replica = replica();

    resolution(&mut replica, 4, Ballot(1, 2), "123".into());
    assert_eq!((0, 5), replica.window().open_range());
    assert_eq!(SlotKind::Resolved, replica.window().kind(4));
    assert_eq!(
        Some((Ballot(1, 2), Bytes::from("123"))),
        replica.window().resolved_value(4)
    );

    resolution(&mut replica, 1, Ballot(1, 2), Bytes::default());
    resolution(&mut replica, 0, Ballot(1, 2), "000".into());
    assert_eq!(&[(0, Bytes::from("000"))], replica.sender().resolutions());

    resolution(&mut replica, 1, Ballot(1, 2), Bytes::default());
    resolution(&mut replica, 2, Ballot(1, 2), Bytes::default());
    resolution(&mut replica, 3, Ballot(1, 2), "3".into());

    assert_eq!(
        &[(0, Bytes::from("000")), (3, Bytes::from("3")), (4, Bytes::from("123"))],
        replica.sender().resolutions()
    );
}
