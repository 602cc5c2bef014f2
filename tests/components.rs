use bytes::Bytes;
use paxos::value::{is_noop, noop};
use paxos::replica::QUEUE_CAPACITY;
use paxos::{
    AcceptResponse, Acceptor, Ballot, Command, Configuration, PrepareResponse, Proposer,
    ProposerStatus, Replica, SlotKind, SlotWindow,
};

#[test]
fn configuration_drops_self_and_repeats() {
    let c = Configuration::new(4, vec![0, 1, 4, 1, 2, 3]);
    assert_eq!(4, c.current());
    assert_eq!(&vec![0, 1, 2, 3], c.peers());
    assert_eq!((3, 3), c.quorum_size());
}

#[test]
fn quorum_is_a_majority() {
    assert_eq!((3, 3), Configuration::new(0, vec![1, 2, 3]).quorum_size());
    assert_eq!((2, 2), Configuration::new(0, vec![1]).quorum_size());
    assert_eq!((1, 1), Configuration::new(0, vec![]).quorum_size());
    assert_eq!((4, 4), Configuration::new(0, vec![1, 2, 3, 4, 5, 6]).quorum_size());
}

#[test]
fn ballot_order_is_round_then_node() {
    assert!(Ballot(0, 4).below(&Ballot(1, 0)));
    assert!(Ballot(1, 0).below(&Ballot(1, 2)));
    assert!(!Ballot(1, 2).below(&Ballot(1, 2)));
    assert!(!Ballot(2, 0).below(&Ballot(1, 9)));
}

#[test]
fn noop_is_the_empty_value() {
    assert!(is_noop(&noop()));
    assert_eq!(0, noop().len());
    assert!(!is_noop(&Bytes::from("a")));
}

#[test]
fn acceptor_promises_at_the_promised_ballot() {
    let mut a = Acceptor::new(3, None);
    assert!(matches!(a.receive_prepare(Ballot(2, 1)), PrepareResponse::Promise { value: None, .. }));
    match a.receive_prepare(Ballot(2, 1)) {
        PrepareResponse::Promise { proposed, value } => {
            assert_eq!(Ballot(2, 1), proposed);
            assert!(value.is_none());
        }
        PrepareResponse::Reject { .. } => panic!("a prepare at the promised ballot was refused"),
    }
    match a.receive_prepare(Ballot(1, 3)) {
        PrepareResponse::Reject { proposed, preempted } => {
            assert_eq!(Ballot(1, 3), proposed);
            assert_eq!(Ballot(2, 1), preempted);
        }
        PrepareResponse::Promise { .. } => panic!("a lower prepare was promised"),
    }
}

#[test]
fn acceptor_rejects_lower_accept_and_ignores_after_decision() {
    let mut a = Acceptor::new(3, Some(Ballot(5, 0)));
    assert!(matches!(
        a.receive_accept(Ballot(4, 1), "x".into()),
        AcceptResponse::Reject { proposed: Ballot(4, 1), preempted: Ballot(5, 0) }
    ));
    assert!(matches!(a.receive_accept(Ballot(5, 0), "y".into()), AcceptResponse::Accepted { .. }));
    assert_eq!(Some((Ballot(5, 0), Bytes::from("y"))), a.highest_value());
    a.resolve(Ballot(5, 0), "y".into());
    assert!(matches!(a.receive_accept(Ballot(9, 9), "z".into()), AcceptResponse::NoChange));
    match a.receive_prepare(Ballot(0, 0)) {
        PrepareResponse::Promise { value, .. } => assert_eq!(Some((Ballot(5, 0), Bytes::from("y"))), value),
        PrepareResponse::Reject { .. } => panic!("a decided slot reports its decision"),
    }
}

#[test]
fn acceptor_counts_a_repeated_vote_once() {
    let b = Ballot(0, 4);
    let mut a = Acceptor::new(3, None);
    a.notice_value(b, "v".into());
    a.receive_accepted(1, b);
    a.receive_accepted(1, b);
    assert_eq!(None, a.resolution());
    a.receive_accepted(2, b);
    assert_eq!(Some((b, Bytes::from("v"))), a.resolution());
    assert!(a.is_resolved());
}

#[test]
fn acceptor_higher_vote_restarts_the_count() {
    let mut a = Acceptor::new(3, None);
    a.notice_value(Ballot(0, 4), "v".into());
    a.receive_accepted(1, Ballot(0, 4));
    a.receive_accepted(2, Ballot(1, 3));
    assert_eq!(None, a.resolution());
    a.notice_value(Ballot(1, 3), "w".into());
    a.receive_accepted(0, Ballot(1, 3));
    assert_eq!(Some((Ballot(1, 3), Bytes::from("w"))), a.resolution());
}

#[test]
fn acceptor_keeps_its_first_decision() {
    let mut a = Acceptor::new(3, None);
    a.resolve(Ballot(1, 1), "a".into());
    a.resolve(Ballot(2, 2), "b".into());
    assert_eq!(Some((Ballot(1, 1), Bytes::from("a"))), a.resolved_value());
}

#[test]
fn notice_value_keeps_the_higher_ballot() {
    let mut a = Acceptor::new(3, None);
    a.notice_value(Ballot(2, 0), "high".into());
    a.notice_value(Ballot(1, 0), "low".into());
    assert_eq!(Some((Ballot(2, 0), Bytes::from("high"))), a.highest_value());
}

#[test]
fn window_drains_in_order_and_never_reopens() {
    let mut w = SlotWindow::new(3);
    assert_eq!(SlotKind::Empty, w.slot_mut(2));
    assert_eq!((0, 3), w.open_range());
    w.fill(0);
    w.resolve(0, Ballot(0, 0), "a".into());
    w.fill(2);
    w.resolve(2, Ballot(0, 0), "c".into());
    let first = w.drain_decisions();
    assert_eq!(vec![(0, Bytes::from("a"))], first);
    assert_eq!((1, 3), w.open_range());
    assert_eq!(SlotKind::Truncated, w.slot_mut(0));
    w.fill(1);
    w.resolve(1, Ballot(0, 0), noop());
    let rest = w.drain_decisions();
    assert_eq!(vec![(1, Bytes::new()), (2, Bytes::from("c"))], rest);
    assert_eq!((3, 3), w.open_range());
    assert_eq!(SlotKind::OutOfRange, w.kind(u64::MAX));
}

#[test]
fn next_slot_allocates_at_the_end() {
    let mut w = SlotWindow::new(3);
    assert_eq!(Some(0), w.next_slot());
    assert_eq!(Some(1), w.next_slot());
    assert_eq!(SlotKind::Open, w.kind(1));
    assert_eq!(SlotKind::Empty, w.kind(7));
}

#[test]
fn proposer_mints_above_observed_and_leads_on_quorum() {
    let mut p = Proposer::new(4, 3);
    assert_eq!(Ballot(0, 4), p.prepare());
    p.observe_ballot(Ballot(3, 1));
    assert_eq!(ProposerStatus::Follower, p.status());
    assert_eq!(Some(Ballot(3, 1)), p.highest_observed_ballot());
    let b = p.prepare();
    assert_eq!(Ballot(4, 4), b);
    assert_eq!(ProposerStatus::Candidate, p.status());
    p.receive_promise(1, b);
    p.receive_promise(1, b);
    assert_eq!(ProposerStatus::Candidate, p.status());
    p.receive_promise(2, Ballot(3, 1));
    assert_eq!(ProposerStatus::Candidate, p.status());
    p.receive_promise(2, b);
    assert_eq!(ProposerStatus::Leader, p.status());
    p.observe_ballot(Ballot(2, 0));
    assert_eq!(ProposerStatus::Leader, p.status());
    p.receive_reject(0, b, Ballot(4, 7));
    assert_eq!(ProposerStatus::Follower, p.status());
    assert_eq!(Some(Ballot(4, 7)), p.highest_observed_ballot());
}

fn leader() -> Replica<()> {
    let mut r = Replica::new((), Configuration::new(4, vec![0, 1, 2, 3]));
    r.proposal("123".into());
    r.promise(0, Ballot(0, 4), vec![]);
    let out = r.promise(1, Ballot(0, 4), vec![]);
    assert_eq!(4, out.messages.len());
    r
}

#[test]
fn repeated_accepted_resolves_once() {
    let mut r = leader();
    assert!(r.accepted(0, 0, Ballot(0, 4)).messages.is_empty());
    assert!(r.accepted(0, 0, Ballot(0, 4)).messages.is_empty());
    let out = r.accepted(2, 0, Ballot(0, 4));
    assert_eq!(4, out.messages.len());
    assert_eq!(vec![(0, Bytes::from("123"))], out.decisions);
    let again = r.accepted(2, 0, Ballot(0, 4));
    assert!(again.messages.is_empty());
    assert!(again.decisions.is_empty());
}

#[test]
fn resolution_of_a_decided_slot_changes_nothing() {
    let mut r = Replica::new((), Configuration::new(4, vec![0, 1, 2, 3]));
    let out = r.resolution(1, Ballot(1, 2), "x".into());
    assert!(out.decisions.is_empty());
    assert_eq!(SlotKind::Resolved, r.window().kind(1));
    let out = r.resolution(1, Ballot(3, 3), "y".into());
    assert!(out.messages.is_empty());
    assert!(out.decisions.is_empty());
    assert_eq!(Some((Ballot(1, 2), Bytes::from("x"))), r.window().resolved_value(1));
    let out = r.resolution(0, Ballot(1, 2), "w".into());
    assert_eq!(vec![(0, Bytes::from("w")), (1, Bytes::from("x"))], out.decisions);
    let out = r.resolution(0, Ballot(1, 2), "w".into());
    assert!(out.decisions.is_empty());
    assert_eq!(SlotKind::Truncated, r.window().kind(0));
}

#[test]
fn leader_proposal_goes_to_a_new_slot() {
    let mut r = leader();
    let out = r.proposal("456".into());
    assert_eq!(4, out.messages.len());
    for (i, (node, cmd)) in out.messages.iter().enumerate() {
        assert_eq!(i as u32, *node);
        assert_eq!(&Command::Accept(1, Ballot(0, 4), "456".into()), cmd);
    }
}

#[test]
fn promise_ignored_unless_candidate() {
    let mut r = Replica::new((), Configuration::new(4, vec![0, 1, 2, 3]));
    let out = r.promise(0, Ballot(0, 4), vec![(0, Ballot(0, 0), "v".into())]);
    assert!(out.messages.is_empty());
    assert_eq!((0, 0), r.window().open_range());
}

#[test]
fn prepare_reports_accepted_and_decided_values() {
    let mut r = Replica::new((), Configuration::new(4, vec![0, 1, 2, 3]));
    r.accept(0, Ballot(1, 1), "a".into());
    r.resolution(2, Ballot(1, 1), "c".into());
    let out = r.prepare(Ballot(2, 3));
    assert_eq!(
        vec![(
            3,
            Command::Promise(
                4,
                Ballot(2, 3),
                vec![(0, Ballot(1, 1), "a".into()), (2, Ballot(1, 1), "c".into())]
            )
        )],
        out.messages
    );
}

#[test]
fn full_queue_turns_values_away() {
    let mut r = Replica::new((), Configuration::new(4, vec![0, 1, 2, 3]));
    let first = r.proposal("0".into());
    assert_eq!(4, first.messages.len());
    for _ in 1..QUEUE_CAPACITY {
        let out = r.proposal("v".into());
        assert!(out.messages.is_empty());
        assert!(out.refused.is_empty());
    }
    let out = r.proposal("late".into());
    assert!(out.messages.is_empty());
    assert_eq!(vec![Bytes::from("late")], out.refused);
}
