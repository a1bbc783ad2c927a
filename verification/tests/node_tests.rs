use paxos::ids::IdSet;
use paxos::node::{Node, ProtocolError};
use paxos::proposal::{AcceptedProposal, Datagram, Incoming, Outgoing, Request, Response};
use paxos::seq_num::SequenceNumber;

fn peers(ids: &[u64]) -> IdSet {
    let mut s = IdSet::new();
    for &id in ids {
        s.insert(id);
    }
    s
}

fn ballot(server_id: u64, time_stamp: u128) -> SequenceNumber {
    SequenceNumber::new(server_id, time_stamp)
}

fn deliver(node: &mut Node, src: u64, dgram: Datagram) -> Vec<Outgoing> {
    node.handle_incoming(Incoming { src, dgram }, 0).expect("protocol violation")
}

#[test]
fn prepare_promises_and_replies() {
    let mut n = Node::new(1, peers(&[1, 2, 3]));
    let b = ballot(2, 5);
    let out = deliver(&mut n, 2, Datagram::Request(Request::Prepare { seq: b }));
    assert_eq!(n.last_promised, Some(b));
    assert_eq!(out.len(), 1);
    assert_eq!(out[0].dst.as_vec(), &vec![2u64]);
    assert_eq!(out[0].dgram, Datagram::Response(Response::Prepare(None)));
}

#[test]
fn prepare_below_promise_is_dropped() {
    let mut n = Node::new(1, peers(&[1, 2, 3]));
    let high = ballot(2, 5);
    deliver(&mut n, 2, Datagram::Request(Request::Prepare { seq: high }));
    let low = ballot(1, 3);
    let out = deliver(&mut n, 3, Datagram::Request(Request::Prepare { seq: low }));
    assert!(out.is_empty());
    assert_eq!(n.last_promised, Some(high));
}

#[test]
fn equal_ballot_is_repromised() {
    let mut n = Node::new(1, peers(&[1, 2, 3]));
    let b = ballot(2, 5);
    deliver(&mut n, 2, Datagram::Request(Request::Prepare { seq: b }));
    let out = deliver(&mut n, 2, Datagram::Request(Request::Prepare { seq: b }));
    assert_eq!(out.len(), 1);
    assert_eq!(n.last_promised, Some(b));
}

#[test]
fn accept_records_and_acknowledges() {
    let mut n = Node::new(1, peers(&[1, 2, 3]));
    let b = ballot(2, 5);
    deliver(&mut n, 2, Datagram::Request(Request::Prepare { seq: b }));
    let out = deliver(&mut n, 2, Datagram::Request(Request::Accept { seq: b, value: 7 }));
    assert_eq!(
        n.last_accepted_proposal,
        Some(AcceptedProposal::new(b, 7))
    );
    // The promise itself is not overwritten by an accept.
    assert_eq!(n.last_promised, Some(b));
    assert_eq!(out.len(), 1);
    assert_eq!(out[0].dgram, Datagram::Response(Response::Accepted { seq: b }));
}

#[test]
fn accept_below_promise_is_dropped() {
    let mut n = Node::new(1, peers(&[1, 2, 3]));
    deliver(&mut n, 2, Datagram::Request(Request::Prepare { seq: ballot(2, 5) }));
    let out = deliver(
        &mut n,
        3,
        Datagram::Request(Request::Accept { seq: ballot(1, 3), value: 7 }),
    );
    assert!(out.is_empty());
    assert_eq!(n.last_accepted_proposal, None);
}

#[test]
fn promise_reply_carries_highest_accepted() {
    let mut n = Node::new(1, peers(&[1, 2, 3]));
    let b = ballot(2, 5);
    deliver(&mut n, 2, Datagram::Request(Request::Prepare { seq: b }));
    deliver(&mut n, 2, Datagram::Request(Request::Accept { seq: b, value: 7 }));
    let higher = ballot(3, 6);
    let out = deliver(&mut n, 3, Datagram::Request(Request::Prepare { seq: higher }));
    assert_eq!(
        out[0].dgram,
        Datagram::Response(Response::Prepare(Some(AcceptedProposal::new(b, 7))))
    );
}

#[test]
fn learn_sets_chosen_once() {
    let mut n = Node::new(1, peers(&[1, 2, 3]));
    deliver(&mut n, 2, Datagram::Request(Request::Learn { value: 7 }));
    assert_eq!(n.chosen, Some(7));
    // The same value again is fine.
    let out = deliver(&mut n, 3, Datagram::Request(Request::Learn { value: 7 }));
    assert!(out.is_empty());
    assert_eq!(n.chosen, Some(7));
}

#[test]
fn conflicting_learn_is_fatal() {
    let mut n = Node::new(1, peers(&[1, 2, 3]));
    deliver(&mut n, 2, Datagram::Request(Request::Learn { value: 7 }));
    let r = n.handle_incoming(
        Incoming { src: 3, dgram: Datagram::Request(Request::Learn { value: 8 }) },
        0,
    );
    assert_eq!(r, Err(ProtocolError::ChosenConflict));
    assert_eq!(n.chosen, Some(7));
}

#[test]
fn unexpected_promise_is_fatal() {
    let mut n = Node::new(1, peers(&[1, 2, 3]));
    let r = n.handle_incoming(
        Incoming { src: 2, dgram: Datagram::Response(Response::Prepare(None)) },
        0,
    );
    assert_eq!(r, Err(ProtocolError::UnexpectedPromise));
}

#[test]
fn unexpected_accepted_is_fatal() {
    let mut n = Node::new(1, peers(&[1, 2, 3]));
    let r = n.handle_incoming(
        Incoming {
            src: 2,
            dgram: Datagram::Response(Response::Accepted { seq: ballot(1, 1) }),
        },
        0,
    );
    assert_eq!(r, Err(ProtocolError::UnexpectedAccepted));
}

#[test]
fn propose_opens_round_and_broadcasts_prepare() {
    let mut n = Node::new(1, peers(&[1, 2, 3]));
    let out = deliver(&mut n, 0, Datagram::Request(Request::Propose { value: 9 }));
    let p = n.proposal.as_ref().expect("a proposal should be active");
    assert_eq!(p.want_value, 9);
    assert_eq!(p.value, None);
    assert_eq!(p.seq, ballot(1, 1));
    assert_eq!(out.len(), 1);
    assert_eq!(out[0].dst.as_vec(), &vec![1u64, 2, 3]);
    assert_eq!(out[0].dgram, Datagram::Request(Request::Prepare { seq: p.seq }));
}

#[test]
fn successive_ballots_strictly_increase() {
    let mut n = Node::new(1, peers(&[1, 2, 3]));
    deliver(&mut n, 0, Datagram::Request(Request::Propose { value: 1 }));
    let b1 = n.proposal.as_ref().unwrap().seq;
    deliver(&mut n, 0, Datagram::Request(Request::Propose { value: 2 }));
    let b2 = n.proposal.as_ref().unwrap().seq;
    assert!(b1.time_stamp < b2.time_stamp);
    assert_ne!(b1, b2);
}

#[test]
fn ballot_takes_wall_clock_when_ahead() {
    let mut n = Node::new(1, peers(&[1, 2, 3]));
    n.handle_incoming(
        Incoming { src: 0, dgram: Datagram::Request(Request::Propose { value: 1 }) },
        500,
    )
    .unwrap();
    assert_eq!(n.proposal.as_ref().unwrap().seq, ballot(1, 500));
}

#[test]
fn stale_accepted_is_ignored() {
    let mut n = Node::new(1, peers(&[1, 2, 3]));
    deliver(&mut n, 0, Datagram::Request(Request::Propose { value: 9 }));
    let stale = ballot(1, 0);
    let out = deliver(&mut n, 2, Datagram::Response(Response::Accepted { seq: stale }));
    assert!(out.is_empty());
    assert!(n.proposal.as_ref().unwrap().accepted.as_vec().is_empty());
}

#[test]
fn majority_of_promises_fires_accept_once() {
    let mut n = Node::new(1, peers(&[1, 2, 3]));
    deliver(&mut n, 0, Datagram::Request(Request::Propose { value: 9 }));
    let b = n.proposal.as_ref().unwrap().seq;
    let out1 = deliver(&mut n, 1, Datagram::Response(Response::Prepare(None)));
    assert!(out1.is_empty());
    let out2 = deliver(&mut n, 2, Datagram::Response(Response::Prepare(None)));
    assert_eq!(out2.len(), 1);
    assert_eq!(
        out2[0].dgram,
        Datagram::Request(Request::Accept { seq: b, value: 9 })
    );
    // A third promise does not fire the transition again.
    let out3 = deliver(&mut n, 3, Datagram::Response(Response::Prepare(None)));
    assert!(out3.is_empty());
    // Nor does a duplicate.
    let out4 = deliver(&mut n, 2, Datagram::Response(Response::Prepare(None)));
    assert!(out4.is_empty());
}

#[test]
fn promises_adopt_highest_accepted_value() {
    let mut n = Node::new(1, peers(&[1, 2, 3]));
    deliver(&mut n, 0, Datagram::Request(Request::Propose { value: 9 }));
    let b = n.proposal.as_ref().unwrap().seq;
    // One promise reports (ballot (3, 9), value 5), a later one the lower
    // (ballot (2, 4), value 6): the proposer must drive 5, not 6 nor 9.
    let out1 = deliver(
        &mut n,
        2,
        Datagram::Response(Response::Prepare(Some(AcceptedProposal::new(ballot(3, 9), 5)))),
    );
    assert!(out1.is_empty());
    let out2 = deliver(
        &mut n,
        3,
        Datagram::Response(Response::Prepare(Some(AcceptedProposal::new(ballot(2, 4), 6)))),
    );
    assert_eq!(out2.len(), 1);
    assert_eq!(
        out2[0].dgram,
        Datagram::Request(Request::Accept { seq: b, value: 5 })
    );
}

#[test]
fn majority_of_accepted_fires_learn_once() {
    let mut n = Node::new(1, peers(&[1, 2, 3]));
    deliver(&mut n, 0, Datagram::Request(Request::Propose { value: 9 }));
    let b = n.proposal.as_ref().unwrap().seq;
    deliver(&mut n, 1, Datagram::Response(Response::Prepare(None)));
    deliver(&mut n, 2, Datagram::Response(Response::Prepare(None)));
    let out1 = deliver(&mut n, 1, Datagram::Response(Response::Accepted { seq: b }));
    assert!(out1.is_empty());
    let out2 = deliver(&mut n, 2, Datagram::Response(Response::Accepted { seq: b }));
    assert_eq!(out2.len(), 1);
    assert_eq!(out2[0].dgram, Datagram::Request(Request::Learn { value: 9 }));
    let out3 = deliver(&mut n, 3, Datagram::Response(Response::Accepted { seq: b }));
    assert!(out3.is_empty());
}

#[test]
fn query_answers_with_chosen_state() {
    let mut n = Node::new(2, peers(&[1, 2, 3]));
    let out = deliver(&mut n, 0, Datagram::Request(Request::Query));
    assert_eq!(out.len(), 1);
    assert_eq!(out[0].dst.as_vec(), &vec![0u64]);
    assert_eq!(out[0].dgram, Datagram::Response(Response::Query { val: None }));
    deliver(&mut n, 1, Datagram::Request(Request::Learn { value: 4 }));
    let out2 = deliver(&mut n, 0, Datagram::Request(Request::Query));
    assert_eq!(out2[0].dgram, Datagram::Response(Response::Query { val: Some(4) }));
}

#[test]
fn propose_after_chosen_changes_nothing() {
    let mut n = Node::new(1, peers(&[1, 2, 3]));
    deliver(&mut n, 2, Datagram::Request(Request::Learn { value: 7 }));
    let out = deliver(&mut n, 0, Datagram::Request(Request::Propose { value: 9 }));
    assert!(out.is_empty());
    assert!(n.proposal.is_none());
    assert_eq!(n.chosen, Some(7));
}

#[test]
fn query_response_is_an_observation_only() {
    let mut n = Node::new(1, peers(&[1, 2, 3]));
    let out = deliver(&mut n, 2, Datagram::Response(Response::Query { val: Some(3) }));
    assert!(out.is_empty());
    assert_eq!(n.chosen, None);
}
