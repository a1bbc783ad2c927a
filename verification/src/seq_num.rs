use vstd::prelude::*;

verus! {

/// A Paxos ballot identifier. Ballots are totally ordered: `time_stamp`
/// decides first, and `server_id` breaks ties, so two replicas can never
/// issue equal ballots as long as each one locally never reuses a
/// `time_stamp`.
#[derive(Clone, Copy, Debug, PartialEq, Eq, Structural)]
pub struct SequenceNumber {
    pub time_stamp: u128,
    pub server_id: u64,
}

/// `a` comes no later than `b` in the ballot order.
pub open spec fn ballot_le(a: SequenceNumber, b: SequenceNumber) -> bool {
    ||| a.time_stamp < b.time_stamp
    ||| (a.time_stamp == b.time_stamp && a.server_id <= b.server_id)
}

/// `a` comes strictly before `b` in the ballot order.
pub open spec fn ballot_lt(a: SequenceNumber, b: SequenceNumber) -> bool {
    ballot_le(a, b) && a != b
}

impl SequenceNumber {
    pub fn new(server_id: u64, time_stamp: u128) -> (r: SequenceNumber)
        ensures
            r == (SequenceNumber { time_stamp, server_id }),
    {
        SequenceNumber { time_stamp, server_id }
    }

    /// Total-order comparison: `time_stamp` first, tie-break by `server_id`.
    pub fn le(&self, other: &SequenceNumber) -> (r: bool)
        ensures
            r == ballot_le(*self, *other),
    {
        self.time_stamp < other.time_stamp || (self.time_stamp == other.time_stamp
            && self.server_id <= other.server_id)
    }
}

/// The ballot order is a total order: antisymmetric, transitive and total,
/// with ties in `time_stamp` broken by `server_id`.
pub proof fn lemma_ballot_order_total(a: SequenceNumber, b: SequenceNumber, c: SequenceNumber)
    ensures
        ballot_le(a, b) && ballot_le(b, a) ==> a == b,
        ballot_le(a, b) && ballot_le(b, c) ==> ballot_le(a, c),
        ballot_le(a, b) || ballot_le(b, a),
        a.time_stamp == b.time_stamp ==> (ballot_le(a, b) <==> a.server_id <= b.server_id),
{
}

} // verus!
