//! The replica state machine: one process playing the Paxos proposer,
//! acceptor and learner roles. A replica consumes one incoming message at a
//! time and returns the messages to send; it never blocks and never does
//! I/O. Every handler is specified against `node_step`, a mathematical
//! transition function over the replica's view, so protocol laws can be
//! stated and proved about `node_step` alone.

use vstd::prelude::*;

use crate::ids::IdSet;
use crate::proposal::{
    out_views, AcceptedProposal, Datagram, Incoming, Outgoing, OutgoingView, Proposal,
    ProposalView, Request, Response, ValueType,
};
use crate::seq_num::{ballot_le, SequenceNumber};

verus! {

/// A message that the protocol itself declares impossible in a correct run:
/// receiving it means a peer (or the surrounding program) is broken, and the
/// replica refuses to guess. The state is left unchanged.
#[derive(Clone, Copy, Debug, PartialEq, Eq)]
pub enum ProtocolError {
    /// A promise arrived while no proposal was active.
    UnexpectedPromise,
    /// An accept acknowledgment arrived while no proposal was active.
    UnexpectedAccepted,
    /// A learn request carried a value other than the one already chosen.
    ChosenConflict,
}

/// Mathematical image of a replica.
#[verifier::ext_equal]
pub ghost struct NodeView {
    pub self_id: u64,
    pub peers: Set<u64>,
    pub proposal: Option<ProposalView>,
    pub last_promised: Option<SequenceNumber>,
    pub last_accepted: Option<AcceptedProposal>,
    pub chosen: Option<ValueType>,
    pub clock: u128,
}

/// What one step of the state machine yields: the successor state, the
/// messages to send, and whether the message was a protocol violation.
#[verifier::ext_equal]
pub ghost struct StepOutcome {
    pub node: NodeView,
    pub out: Seq<OutgoingView>,
    pub err: Option<ProtocolError>,
}

/// An acceptor honors a ballot when it has promised nothing yet, or nothing
/// above it.
pub open spec fn promise_allows(lp: Option<SequenceNumber>, b: SequenceNumber) -> bool {
    match lp {
        None => true,
        Some(p) => ballot_le(p, b),
    }
}

/// A strict majority of a peer set of size `n`.
pub open spec fn quorum(n: nat) -> nat {
    n / 2 + 1
}

/// The ballot clock after reading the wall clock `now`: the replica takes
/// `now` when it moves forward, and otherwise counts past its latest ballot,
/// so successive ballots are strictly increasing until the clock is
/// exhausted.
pub open spec fn next_clock(clock: u128, now: u128) -> u128 {
    if now > clock {
        now
    } else if clock < u128::MAX {
        (clock + 1) as u128
    } else {
        clock
    }
}

/// A step that changes nothing and sends nothing.
pub open spec fn stutter(pre: NodeView) -> StepOutcome {
    StepOutcome { node: pre, out: Seq::empty(), err: None }
}

/// Acceptor role, `Request::Prepare`: promise the ballot when nothing higher
/// was promised, replying with the highest accepted proposal so far; drop
/// silently otherwise.
pub open spec fn step_prepare(pre: NodeView, src: u64, b: SequenceNumber) -> StepOutcome {
    if promise_allows(pre.last_promised, b) {
        StepOutcome {
            node: NodeView { last_promised: Some(b), ..pre },
            out: seq![
                OutgoingView {
                    dst: Set::empty().insert(src),
                    dgram: Datagram::Response(Response::Prepare(pre.last_accepted)),
                },
            ],
            err: None,
        }
    } else {
        stutter(pre)
    }
}

/// Acceptor role, `Request::Accept`: record the proposal and acknowledge it
/// when nothing higher was promised; the promise itself is not overwritten.
/// Drop silently otherwise.
pub open spec fn step_accept(pre: NodeView, src: u64, b: SequenceNumber, value: ValueType) -> StepOutcome {
    if promise_allows(pre.last_promised, b) {
        StepOutcome {
            node: NodeView { last_accepted: Some(AcceptedProposal { seq: b, val: value }), ..pre },
            out: seq![
                OutgoingView {
                    dst: Set::empty().insert(src),
                    dgram: Datagram::Response(Response::Accepted { seq: b }),
                },
            ],
            err: None,
        }
    } else {
        stutter(pre)
    }
}

/// Learner role, `Request::Learn`: record the first value; a different value
/// afterwards is a protocol violation.
pub open spec fn step_learn(pre: NodeView, value: ValueType) -> StepOutcome {
    match pre.chosen {
        None => StepOutcome {
            node: NodeView { chosen: Some(value), ..pre },
            out: Seq::empty(),
            err: None,
        },
        Some(v) => if v == value {
            stutter(pre)
        } else {
            StepOutcome { node: pre, out: Seq::empty(), err: Some(ProtocolError::ChosenConflict) }
        },
    }
}

/// Proposer role, `Request::Propose`: when nothing is chosen yet, open a new
/// round under a fresh ballot (superseding any active proposal) and ask every
/// peer to prepare; when a value is already chosen, drop the request.
pub open spec fn step_propose(pre: NodeView, value: ValueType, now: u128) -> StepOutcome {
    if pre.chosen is Some {
        stutter(pre)
    } else {
        let c = next_clock(pre.clock, now);
        let b = SequenceNumber { time_stamp: c, server_id: pre.self_id };
        StepOutcome {
            node: NodeView {
                clock: c,
                proposal: Some(
                    ProposalView {
                        seq: b,
                        value: None,
                        want_value: value,
                        highest_seen: None,
                        prepared: Set::empty(),
                        accepted: Set::empty(),
                    },
                ),
                ..pre
            },
            out: seq![
                OutgoingView { dst: pre.peers, dgram: Datagram::Request(Request::Prepare { seq: b }) },
            ],
            err: None,
        }
    }
}

/// `Request::Query`: answer with the chosen value, which may be absent.
pub open spec fn step_query(pre: NodeView, src: u64) -> StepOutcome {
    StepOutcome {
        node: pre,
        out: seq![
            OutgoingView {
                dst: Set::empty().insert(src),
                dgram: Datagram::Response(Response::Query { val: pre.chosen }),
            },
        ],
        err: None,
    }
}

/// The adopt-highest rule: a promise that reports an accepted proposal at
/// least as high as any seen so far makes the proposer drive that value
/// instead of its own.
pub open spec fn adopt(p: ProposalView, ma: Option<AcceptedProposal>) -> ProposalView {
    match ma {
        None => p,
        Some(ap) => {
            let newer = match p.highest_seen {
                None => true,
                Some(h) => ballot_le(h, ap.seq),
            };
            if newer {
                ProposalView { highest_seen: Some(ap.seq), value: Some(ap.val), ..p }
            } else {
                p
            }
        },
    }
}

/// Proposer role, `Response::Prepare` (a promise): apply the adopt-highest
/// rule, count the promiser, and on first reaching a strict majority
/// broadcast the accept request, driving the adopted value or, if none,
/// the client's. A promise with no proposal active is a protocol violation.
pub open spec fn step_promise(pre: NodeView, src: u64, ma: Option<AcceptedProposal>) -> StepOutcome {
    match pre.proposal {
        None => StepOutcome {
            node: pre,
            out: Seq::empty(),
            err: Some(ProtocolError::UnexpectedPromise),
        },
        Some(p0) => {
            let p1 = adopt(p0, ma);
            let newly = !p1.prepared.contains(src);
            let p2 = ProposalView { prepared: p1.prepared.insert(src), ..p1 };
            if newly && p2.prepared.len() == quorum(pre.peers.len()) {
                let v = match p2.value {
                    Some(v) => v,
                    None => p2.want_value,
                };
                let p3 = ProposalView { value: Some(v), ..p2 };
                StepOutcome {
                    node: NodeView { proposal: Some(p3), ..pre },
                    out: seq![
                        OutgoingView {
                            dst: pre.peers,
                            dgram: Datagram::Request(Request::Accept { seq: p3.seq, value: v }),
                        },
                    ],
                    err: None,
                }
            } else {
                StepOutcome { node: NodeView { proposal: Some(p2), ..pre }, out: Seq::empty(), err: None }
            }
        },
    }
}

/// Proposer role, `Response::Accepted`: count the acceptor if the ballot
/// matches the active proposal (anything else is stale and dropped), and on
/// first reaching a strict majority broadcast the learn request. An
/// acknowledgment with no proposal active is a protocol violation.
pub open spec fn step_accepted(pre: NodeView, src: u64, b: SequenceNumber) -> StepOutcome {
    match pre.proposal {
        None => StepOutcome {
            node: pre,
            out: Seq::empty(),
            err: Some(ProtocolError::UnexpectedAccepted),
        },
        Some(p0) => {
            if b != p0.seq {
                stutter(pre)
            } else {
                let newly = !p0.accepted.contains(src);
                let p2 = ProposalView { accepted: p0.accepted.insert(src), ..p0 };
                if newly && p2.accepted.len() == quorum(pre.peers.len()) {
                    let v = match p2.value {
                        Some(v) => v,
                        None => p2.want_value,
                    };
                    StepOutcome {
                        node: NodeView { proposal: Some(p2), ..pre },
                        out: seq![
                            OutgoingView {
                                dst: pre.peers,
                                dgram: Datagram::Request(Request::Learn { value: v }),
                            },
                        ],
                        err: None,
                    }
                } else {
                    StepOutcome {
                        node: NodeView { proposal: Some(p2), ..pre },
                        out: Seq::empty(),
                        err: None,
                    }
                }
            }
        },
    }
}

/// One request handled, as a mathematical step.
pub open spec fn step_request(pre: NodeView, src: u64, req: Request, now: u128) -> StepOutcome {
    match req {
        Request::Propose { value } => step_propose(pre, value, now),
        Request::Prepare { seq } => step_prepare(pre, src, seq),
        Request::Accept { seq, value } => step_accept(pre, src, seq, value),
        Request::Learn { value } => step_learn(pre, value),
        Request::Query => step_query(pre, src),
    }
}

/// One response handled, as a mathematical step. A query answer is a
/// client-side observation and changes nothing.
pub open spec fn step_response(pre: NodeView, src: u64, resp: Response) -> StepOutcome {
    match resp {
        Response::Prepare(ma) => step_promise(pre, src, ma),
        Response::Accepted { seq } => step_accepted(pre, src, seq),
        Response::Query { val } => stutter(pre),
    }
}

/// One incoming message handled, as a mathematical step: the whole state
/// machine of the replica.
pub open spec fn node_step(pre: NodeView, src: u64, dgram: Datagram, now: u128) -> StepOutcome {
    match dgram {
        Datagram::Request(req) => step_request(pre, src, req, now),
        Datagram::Response(resp) => step_response(pre, src, resp),
    }
}

/// One replica. All three Paxos roles live here; the surrounding program
/// owns the wires and feeds `handle_incoming` one decoded message at a time.
#[derive(Debug)]
pub struct Node {
    pub self_id: u64,
    pub peers_id: IdSet,
    pub proposal: Option<Proposal>,
    pub last_promised: Option<SequenceNumber>,
    pub last_accepted_proposal: Option<AcceptedProposal>,
    pub chosen: Option<ValueType>,
    pub clock: u128,
}

impl View for Node {
    type V = NodeView;

    open spec fn view(&self) -> NodeView {
        NodeView {
            self_id: self.self_id,
            peers: self.peers_id@,
            proposal: match self.proposal {
                Some(p) => Some(p@),
                None => None,
            },
            last_promised: self.last_promised,
            last_accepted: self.last_accepted_proposal,
            chosen: self.chosen,
            clock: self.clock,
        }
    }
}

impl Node {
    /// The containers hold no duplicate identifiers, so counts and set
    /// cardinalities agree.
    pub open spec fn wf(&self) -> bool {
        &&& self.peers_id.wf()
        &&& match self.proposal {
            Some(p) => p.wf(),
            None => true,
        }
    }

    /// A fresh replica that has promised, accepted, chosen and proposed
    /// nothing.
    pub fn new(self_id: u64, peers_id: IdSet) -> (r: Node)
        requires
            peers_id.wf(),
        ensures
            r.wf(),
            r@ == (NodeView {
                self_id,
                peers: peers_id@,
                proposal: None,
                last_promised: None,
                last_accepted: None,
                chosen: None,
                clock: 0,
            }),
    {
        Node {
            self_id,
            peers_id,
            proposal: None,
            last_promised: None,
            last_accepted_proposal: None,
            chosen: None,
            clock: 0,
        }
    }

    /// A fresh ballot: strictly above every ballot this replica issued
    /// before (as long as its clock is not exhausted), stamped with its id.
    fn next_seq(&mut self, now_ms: u128) -> (r: SequenceNumber)
        ensures
            final(self).clock == next_clock(old(self).clock, now_ms),
            r == (SequenceNumber { time_stamp: final(self).clock, server_id: old(self).self_id }),
            final(self).self_id == old(self).self_id,
            final(self).peers_id == old(self).peers_id,
            final(self).proposal == old(self).proposal,
            final(self).last_promised == old(self).last_promised,
            final(self).last_accepted_proposal == old(self).last_accepted_proposal,
            final(self).chosen == old(self).chosen,
    {
        let c = if now_ms > self.clock {
            now_ms
        } else if self.clock < u128::MAX {
            self.clock + 1
        } else {
            self.clock
        };
        self.clock = c;
        SequenceNumber { time_stamp: c, server_id: self.self_id }
    }

    /// An outgoing message addressed to the one peer that triggered it.
    fn unicast(&self, src: u64, msg: Datagram) -> (r: Outgoing)
        ensures
            r@ == (OutgoingView { dst: Set::empty().insert(src), dgram: msg }),
    {
        let r = Outgoing { dst: IdSet::singleton(src), dgram: msg };
        proof {
            assert(r@ =~~= (OutgoingView { dst: Set::empty().insert(src), dgram: msg }));
        }
        r
    }

    /// An outgoing message addressed to the whole peer set.
    fn broadcast(&self, msg: Datagram) -> (r: Outgoing)
        ensures
            r@ == (OutgoingView { dst: self.peers_id@, dgram: msg }),
    {
        let r = Outgoing { dst: self.peers_id.duplicate(), dgram: msg };
        proof {
            assert(r@ =~~= (OutgoingView { dst: self.peers_id@, dgram: msg }));
        }
        r
    }

    /// Handles one request, exactly as `step_request` describes.
    pub fn handle_request(&mut self, src: u64, req: Request, now_ms: u128) -> (r: Result<
        Vec<Outgoing>,
        ProtocolError,
    >)
        requires
            old(self).wf(),
        ensures
            final(self).wf(),
            ({
                let s = step_request(old(self)@, src, req, now_ms);
                &&& final(self)@ == s.node
                &&& match r {
                    Ok(out) => s.err is None && out_views(out@) == s.out,
                    Err(e) => s.err == Some(e),
                }
            }),
    {
        let ghost pre = self@;
        match req {
            Request::Prepare { seq } => {
                let honor = match &self.last_promised {
                    None => true,
                    Some(p) => p.le(&seq),
                };
                if honor {
                    self.last_promised = Some(seq);
                    let msg = self.unicast(
                        src,
                        Datagram::Response(Response::Prepare(self.last_accepted_proposal)),
                    );
                    let mut out: Vec<Outgoing> = Vec::new();
                    out.push(msg);
                    proof {
                        assert(self@ =~~= step_prepare(pre, src, seq).node);
                        assert(out_views(out@) =~~= step_prepare(pre, src, seq).out);
                    }
                    Ok(out)
                } else {
                    proof {
                        assert(out_views(Seq::<Outgoing>::empty()) =~~= Seq::<OutgoingView>::empty());
                    }
                    Ok(Vec::new())
                }
            },
            Request::Accept { seq, value } => {
                let honor = match &self.last_promised {
                    None => true,
                    Some(p) => p.le(&seq),
                };
                if honor {
                    self.last_accepted_proposal = Some(AcceptedProposal { seq, val: value });
                    let msg = self.unicast(src, Datagram::Response(Response::Accepted { seq }));
                    let mut out: Vec<Outgoing> = Vec::new();
                    out.push(msg);
                    proof {
                        assert(self@ =~~= step_accept(pre, src, seq, value).node);
                        assert(out_views(out@) =~~= step_accept(pre, src, seq, value).out);
                    }
                    Ok(out)
                } else {
                    proof {
                        assert(out_views(Seq::<Outgoing>::empty()) =~~= Seq::<OutgoingView>::empty());
                    }
                    Ok(Vec::new())
                }
            },
            Request::Learn { value } => {
                proof {
                    assert(out_views(Seq::<Outgoing>::empty()) =~~= Seq::<OutgoingView>::empty());
                }
                match self.chosen {
                    Some(v) => {
                        if v == value {
                            Ok(Vec::new())
                        } else {
                            Err(ProtocolError::ChosenConflict)
                        }
                    },
                    None => {
                        self.chosen = Some(value);
                        proof {
                            assert(self@ =~~= step_learn(pre, value).node);
                        }
                        Ok(Vec::new())
                    },
                }
            },
            Request::Propose { value } => {
                if self.chosen.is_none() {
                    let b = self.next_seq(now_ms);
                    self.proposal = Some(
                        Proposal {
                            seq: b,
                            value: None,
                            want_value: value,
                            highest_seen: None,
                            prepared: IdSet::new(),
                            accepted: IdSet::new(),
                        },
                    );
                    let msg = self.broadcast(Datagram::Request(Request::Prepare { seq: b }));
                    let mut out: Vec<Outgoing> = Vec::new();
                    out.push(msg);
                    proof {
                        assert(self@ =~~= step_propose(pre, value, now_ms).node);
                        assert(out_views(out@) =~~= step_propose(pre, value, now_ms).out);
                    }
                    Ok(out)
                } else {
                    proof {
                        assert(out_views(Seq::<Outgoing>::empty()) =~~= Seq::<OutgoingView>::empty());
                    }
                    Ok(Vec::new())
                }
            },
            Request::Query => {
                let msg = self.unicast(src, Datagram::Response(Response::Query { val: self.chosen }));
                let mut out: Vec<Outgoing> = Vec::new();
                out.push(msg);
                proof {
                    assert(out_views(out@) =~~= step_query(pre, src).out);
                }
                Ok(out)
            },
        }
    }

    /// Handles one response, exactly as `step_response` describes.
    pub fn handle_response(&mut self, src: u64, resp: Response) -> (r: Result<
        Vec<Outgoing>,
        ProtocolError,
    >)
        requires
            old(self).wf(),
        ensures
            final(self).wf(),
            ({
                let s = step_response(old(self)@, src, resp);
                &&& final(self)@ == s.node
                &&& match r {
                    Ok(out) => s.err is None && out_views(out@) == s.out,
                    Err(e) => s.err == Some(e),
                }
            }),
    {
        let ghost pre = self@;
        match resp {
            Response::Prepare(ma) => {
                let prop_opt = self.proposal.take();
                match prop_opt {
                    None => {
                        proof {
                            assert(self@ =~~= pre);
                        }
                        Err(ProtocolError::UnexpectedPromise)
                    },
                    Some(mut p) => {
                        match ma {
                            None => {},
                            Some(ap) => {
                                let newer = match &p.highest_seen {
                                    None => true,
                                    Some(h) => h.le(&ap.seq),
                                };
                                if newer {
                                    p.highest_seen = Some(ap.seq);
                                    p.value = Some(ap.val);
                                }
                            },
                        }
                        proof {
                            assert(p@ =~~= adopt(pre.proposal->0, ma));
                        }
                        let newly = p.prepared.insert(src);
                        let q = self.peers_id.len() / 2 + 1;
                        if newly && p.prepared.len() == q {
                            let v = match p.value {
                                Some(v) => v,
                                None => p.want_value,
                            };
                            p.value = Some(v);
                            let msg = self.broadcast(
                                Datagram::Request(Request::Accept { seq: p.seq, value: v }),
                            );
                            self.proposal = Some(p);
                            let mut out: Vec<Outgoing> = Vec::new();
                            out.push(msg);
                            proof {
                                assert(self@ =~~= step_promise(pre, src, ma).node);
                                assert(out_views(out@) =~~= step_promise(pre, src, ma).out);
                            }
                            Ok(out)
                        } else {
                            self.proposal = Some(p);
                            proof {
                                assert(self@ =~~= step_promise(pre, src, ma).node);
                                assert(out_views(Seq::<Outgoing>::empty())
                                    =~~= Seq::<OutgoingView>::empty());
                            }
                            Ok(Vec::new())
                        }
                    },
                }
            },
            Response::Accepted { seq } => {
                let prop_opt = self.proposal.take();
                match prop_opt {
                    None => {
                        proof {
                            assert(self@ =~~= pre);
                        }
                        Err(ProtocolError::UnexpectedAccepted)
                    },
                    Some(mut p) => {
                        if !(seq == p.seq) {
                            self.proposal = Some(p);
                            proof {
                                assert(self@ =~~= pre);
                                assert(out_views(Seq::<Outgoing>::empty())
                                    =~~= Seq::<OutgoingView>::empty());
                            }
                            Ok(Vec::new())
                        } else {
                            let newly = p.accepted.insert(src);
                            let q = self.peers_id.len() / 2 + 1;
                            if newly && p.accepted.len() == q {
                                let v = match p.value {
                                    Some(v) => v,
                                    None => p.want_value,
                                };
                                let msg = self.broadcast(
                                    Datagram::Request(Request::Learn { value: v }),
                                );
                                self.proposal = Some(p);
                                let mut out: Vec<Outgoing> = Vec::new();
                                out.push(msg);
                                proof {
                                    assert(self@ =~~= step_accepted(pre, src, seq).node);
                                    assert(out_views(out@) =~~= step_accepted(pre, src, seq).out);
                                }
                                Ok(out)
                            } else {
                                self.proposal = Some(p);
                                proof {
                                    assert(self@ =~~= step_accepted(pre, src, seq).node);
                                    assert(out_views(Seq::<Outgoing>::empty())
                                        =~~= Seq::<OutgoingView>::empty());
                                }
                                Ok(Vec::new())
                            }
                        }
                    },
                }
            },
            Response::Query { val } => {
                proof {
                    assert(out_views(Seq::<Outgoing>::empty()) =~~= Seq::<OutgoingView>::empty());
                }
                Ok(Vec::new())
            },
        }
    }

    /// Handles one decoded inbound message, exactly as `node_step`
    /// describes: the requests and responses above, dispatched on the
    /// datagram's tag. `now_ms` is the host's reading of a millisecond
    /// clock; correctness does not depend on it.
    pub fn handle_incoming(&mut self, incoming: Incoming, now_ms: u128) -> (r: Result<
        Vec<Outgoing>,
        ProtocolError,
    >)
        requires
            old(self).wf(),
        ensures
            final(self).wf(),
            ({
                let s = node_step(old(self)@, incoming.src, incoming.dgram, now_ms);
                &&& final(self)@ == s.node
                &&& match r {
                    Ok(out) => s.err is None && out_views(out@) == s.out,
                    Err(e) => s.err == Some(e),
                }
            }),
    {
        let Incoming { src, dgram } = incoming;
        match dgram {
            Datagram::Request(req) => self.handle_request(src, req, now_ms),
            Datagram::Response(resp) => self.handle_response(src, resp),
        }
    }
}

} // verus!
