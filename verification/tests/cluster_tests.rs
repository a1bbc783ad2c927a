//! Whole-cluster scenarios: several replicas wired through an in-memory
//! message queue that plays the proxy's role, delivered first-in-first-out.
//! Id 0 is the client; its answers land in a client inbox.

use paxos::ids::IdSet;
use paxos::node::Node;
use paxos::proposal::{Datagram, Incoming, Request, Response};

struct Cluster {
    nodes: Vec<Node>,
    queue: Vec<(u64, Incoming)>,
    client_inbox: Vec<Datagram>,
}

impl Cluster {
    /// Replicas 1..=n, each with the full peer set (itself included).
    fn new(n: u64) -> Cluster {
        let mut nodes = Vec::new();
        for id in 1..=n {
            let mut peers = IdSet::new();
            for p in 1..=n {
                peers.insert(p);
            }
            nodes.push(Node::new(id, peers));
        }
        Cluster { nodes, queue: Vec::new(), client_inbox: Vec::new() }
    }

    fn node(&self, id: u64) -> &Node {
        &self.nodes[(id - 1) as usize]
    }

    fn send(&mut self, dst: u64, src: u64, dgram: Datagram) {
        self.queue.push((dst, Incoming { src, dgram }));
    }

    fn propose(&mut self, server: u64, value: u32) {
        self.send(server, 0, Datagram::Request(Request::Propose { value }));
    }

    fn query(&mut self, server: u64) {
        self.send(server, 0, Datagram::Request(Request::Query));
    }

    /// Delivers one queued message; returns false when the queue is empty.
    /// With `drop_accepted`, accept acknowledgments are discarded
    /// undelivered, as a lossy network would.
    fn step(&mut self, drop_accepted: bool) -> bool {
        if self.queue.is_empty() {
            return false;
        }
        let (dst, inc) = self.queue.remove(0);
        if dst == 0 {
            self.client_inbox.push(inc.dgram);
            return true;
        }
        if drop_accepted {
            if let Datagram::Response(Response::Accepted { .. }) = inc.dgram {
                return true;
            }
        }
        let src = dst;
        let out = self.nodes[(dst - 1) as usize]
            .handle_incoming(inc, 0)
            .expect("protocol violation");
        for o in out {
            for &id in o.dst.as_vec() {
                self.queue.push((id, Incoming { src, dgram: o.dgram }));
            }
        }
        true
    }

    /// Delivers every message until the cluster is quiet.
    fn settle(&mut self) {
        while self.step(false) {}
    }

    /// Delivers every message, discarding accept acknowledgments, so no
    /// round can commit.
    fn settle_dropping_accepted(&mut self) {
        while self.step(true) {}
    }

    fn chosen_values(&self) -> Vec<Option<u32>> {
        self.nodes.iter().map(|n| n.chosen).collect()
    }
}

#[test]
fn single_replica_chooses_immediately() {
    // A cluster of one: the replica's peer set is itself alone.
    let mut c = Cluster::new(1);
    c.propose(1, 7);
    c.settle();
    assert_eq!(c.node(1).chosen, Some(7));
}

#[test]
fn propose_twice_same_value_is_harmless() {
    let mut c = Cluster::new(3);
    c.propose(1, 4);
    c.settle();
    assert_eq!(c.chosen_values(), vec![Some(4), Some(4), Some(4)]);
    // The same value proposed again, on another replica: no state change
    // and no panic.
    c.propose(3, 4);
    c.settle();
    assert_eq!(c.chosen_values(), vec![Some(4), Some(4), Some(4)]);
    assert!(c.node(3).proposal.is_none());
}

#[test]
fn propose_after_chosen_never_changes_chosen() {
    let mut c = Cluster::new(3);
    c.propose(2, 4);
    c.settle();
    c.propose(1, 9);
    c.settle();
    assert_eq!(c.chosen_values(), vec![Some(4), Some(4), Some(4)]);
}

#[test]
fn single_proposer_three_replicas() {
    let mut c = Cluster::new(3);
    c.propose(1, 7);
    c.settle();
    assert_eq!(c.chosen_values(), vec![Some(7), Some(7), Some(7)]);
    for id in 1..=3 {
        c.query(id);
    }
    c.settle();
    assert_eq!(
        c.client_inbox,
        vec![
            Datagram::Response(Response::Query { val: Some(7) }),
            Datagram::Response(Response::Query { val: Some(7) }),
            Datagram::Response(Response::Query { val: Some(7) }),
        ]
    );
}

#[test]
fn two_concurrent_proposers_agree() {
    let mut c = Cluster::new(5);
    c.propose(1, 11);
    c.propose(2, 22);
    c.settle();
    let mut decided: Option<u32> = None;
    for v in c.chosen_values() {
        if let Some(v) = v {
            assert!(v == 11 || v == 22);
            match decided {
                None => decided = Some(v),
                Some(w) => assert_eq!(v, w),
            }
        }
    }
    assert!(decided.is_some(), "no replica reached a decision");
}

#[test]
fn late_proposer_adopts_prior_value() {
    let mut c = Cluster::new(3);
    // Replica 1 proposes 5 and reaches the accepting state: acceptors
    // record (b1, 5), but their acknowledgments are lost, so nothing
    // commits.
    c.propose(1, 5);
    c.settle_dropping_accepted();
    assert_eq!(c.chosen_values(), vec![None, None, None]);
    assert!(c.node(1).last_accepted_proposal.is_some());
    // Replica 2 now proposes 9 under a higher ballot. Its promises carry
    // (b1, 5), so its accept phase must drive 5, not 9.
    c.propose(2, 9);
    c.settle();
    let p = c.node(2).proposal.as_ref().expect("replica 2 proposed");
    assert_eq!(p.want_value, 9);
    assert_eq!(p.value, Some(5));
    assert_eq!(c.chosen_values(), vec![Some(5), Some(5), Some(5)]);
}

#[test]
fn query_before_decision_answers_none() {
    let mut c = Cluster::new(3);
    c.query(2);
    c.settle();
    assert_eq!(c.client_inbox, vec![Datagram::Response(Response::Query { val: None })]);
    assert_eq!(c.chosen_values(), vec![None, None, None]);
}

#[test]
fn twenty_racing_proposers_agree() {
    // Twenty replicas, each proposing its own value, in a shuffled order.
    let order: [u64; 20] = [
        13, 2, 17, 9, 20, 5, 1, 16, 8, 12, 3, 19, 7, 14, 10, 4, 18, 6, 15, 11,
    ];
    let mut c = Cluster::new(20);
    for &i in order.iter() {
        c.propose(i, i as u32);
    }
    c.settle();
    let mut decided: Option<u32> = None;
    for v in c.chosen_values() {
        if let Some(v) = v {
            assert!((1..=20).contains(&v));
            match decided {
                None => decided = Some(v),
                Some(w) => assert_eq!(v, w),
            }
        }
    }
    assert!(decided.is_some(), "no replica reached a decision");
    // Queries after the race all answer alike.
    for id in 1..=20 {
        c.query(id);
    }
    c.settle();
    for d in &c.client_inbox {
        assert_eq!(*d, Datagram::Response(Response::Query { val: decided }));
    }
}
