use vstd::prelude::*;

use crate::ids::IdSet;
use crate::seq_num::SequenceNumber;

verus! {

/// The value the cluster agrees on: a small fixed-width scalar, so the wire
/// framing is bit-exact.
pub type ValueType = u32;

/// The highest-numbered proposal a replica has accepted so far.
#[derive(Clone, Copy, Debug, PartialEq, Eq, Structural)]
pub struct AcceptedProposal {
    pub seq: SequenceNumber,
    pub val: ValueType,
}

impl AcceptedProposal {
    pub fn new(seq: SequenceNumber, val: ValueType) -> (r: AcceptedProposal)
        ensures
            r == (AcceptedProposal { seq, val }),
    {
        AcceptedProposal { seq, val }
    }
}

/// Proposer-side working state for one ballot.
///
/// `want_value` is what the client asked for; `value` is what the proposer
/// will actually drive through the accept phase, adopting the value of the
/// highest-numbered accepted proposal reported by any promise.
#[derive(Debug)]
pub struct Proposal {
    pub seq: SequenceNumber,
    pub value: Option<ValueType>,
    pub want_value: ValueType,
    pub highest_seen: Option<SequenceNumber>,
    pub prepared: IdSet,
    pub accepted: IdSet,
}

/// Mathematical image of a `Proposal`: the quorum sets become `Set<u64>`.
#[verifier::ext_equal]
pub ghost struct ProposalView {
    pub seq: SequenceNumber,
    pub value: Option<ValueType>,
    pub want_value: ValueType,
    pub highest_seen: Option<SequenceNumber>,
    pub prepared: Set<u64>,
    pub accepted: Set<u64>,
}

impl View for Proposal {
    type V = ProposalView;

    open spec fn view(&self) -> ProposalView {
        ProposalView {
            seq: self.seq,
            value: self.value,
            want_value: self.want_value,
            highest_seen: self.highest_seen,
            prepared: self.prepared@,
            accepted: self.accepted@,
        }
    }
}

impl Proposal {
    pub open spec fn wf(&self) -> bool {
        self.prepared.wf() && self.accepted.wf()
    }
}

/// Requests a replica can receive, from a client (`Propose`, `Query`) or
/// from a peer playing the proposer role (`Prepare`, `Accept`, `Learn`).
#[derive(Clone, Copy, Debug, PartialEq, Eq)]
pub enum Request {
    Propose { value: ValueType },
    Prepare { seq: SequenceNumber },
    Accept { seq: SequenceNumber, value: ValueType },
    Learn { value: ValueType },
    Query,
}

/// Replies: a promise (carrying the acceptor's accepted proposal, if any),
/// an accept acknowledgment, and a query answer.
#[derive(Clone, Copy, Debug, PartialEq, Eq)]
pub enum Response {
    Prepare(Option<AcceptedProposal>),
    Accepted { seq: SequenceNumber },
    Query { val: Option<ValueType> },
}

/// One wire payload: a tagged request or response.
#[derive(Clone, Copy, Debug, PartialEq, Eq)]
pub enum Datagram {
    Request(Request),
    Response(Response),
}

/// A decoded inbound message: the sender's id and the payload.
#[derive(Debug, PartialEq, Eq)]
pub struct Incoming {
    pub src: u64,
    pub dgram: Datagram,
}

/// An outbound message: the payload and the set of destination ids.
#[derive(Debug, PartialEq, Eq)]
pub struct Outgoing {
    pub dst: IdSet,
    pub dgram: Datagram,
}

/// Mathematical image of an `Outgoing`: the destination set as `Set<u64>`.
#[verifier::ext_equal]
pub ghost struct OutgoingView {
    pub dst: Set<u64>,
    pub dgram: Datagram,
}

impl View for Outgoing {
    type V = OutgoingView;

    open spec fn view(&self) -> OutgoingView {
        OutgoingView { dst: self.dst@, dgram: self.dgram }
    }
}

/// The views of a batch of outgoing messages, in order.
pub open spec fn out_views(s: Seq<Outgoing>) -> Seq<OutgoingView> {
    s.map_values(|o: Outgoing| o@)
}

} // verus!
