//! Protocol laws, stated and proved over `node_step`, the mathematical
//! transition function of a replica. A run is a sequence of delivered
//! events folded through `node_step`; the laws quantify over all runs.

use vstd::prelude::*;

use crate::node::{node_step, next_clock, quorum, NodeView};
use crate::proposal::{Datagram, OutgoingView, Request, Response, ValueType};
use crate::seq_num::{ballot_le, SequenceNumber};

verus! {

/// One delivered event: who sent it, what it was, and the clock reading the
/// host passed along with it.
pub ghost struct Event {
    pub src: u64,
    pub dgram: Datagram,
    pub now: u128,
}

/// The state a replica reaches after handling `evs` in order.
pub open spec fn run(pre: NodeView, evs: Seq<Event>) -> NodeView
    decreases evs.len(),
{
    if evs.len() == 0 {
        pre
    } else {
        let prior = run(pre, evs.drop_last());
        let e = evs.last();
        node_step(prior, e.src, e.dgram, e.now).node
    }
}

/// One step never lowers `last_promised`, and never clears it.
pub proof fn lemma_step_promise_monotonic(pre: NodeView, src: u64, dgram: Datagram, now: u128)
    ensures
        ({
            let post = node_step(pre, src, dgram, now).node;
            match (pre.last_promised, post.last_promised) {
                (Some(p), Some(q)) => ballot_le(p, q),
                (Some(p), None) => false,
                _ => true,
            }
        }),
{
}

/// Promise monotonicity: along any run, the values taken by `last_promised`
/// are non-decreasing in the ballot order.
pub proof fn lemma_promise_monotonic(pre: NodeView, evs: Seq<Event>, i: int, j: int)
    requires
        0 <= i <= j <= evs.len(),
    ensures
        ({
            let a = run(pre, evs.take(i)).last_promised;
            let b = run(pre, evs.take(j)).last_promised;
            match (a, b) {
                (Some(p), Some(q)) => ballot_le(p, q),
                (Some(p), None) => false,
                _ => true,
            }
        }),
    decreases j - i,
{
    if i == j {
    } else {
        lemma_promise_monotonic(pre, evs, i, j - 1);
        let prefix = evs.take(j);
        assert(prefix.drop_last() =~= evs.take(j - 1));
        lemma_step_promise_monotonic(
            run(pre, evs.take(j - 1)),
            prefix.last().src,
            prefix.last().dgram,
            prefix.last().now,
        );
    }
}

/// Accepted-bounded-by-promised, as far as this design keeps it: a step
/// preserves `last_accepted.seq <= last_promised` provided the step is not
/// an accept request overtaking the current promise (which this design
/// honors without raising the promise), nor a prepare request reaching a
/// replica that has accepted something while promising nothing.
pub proof fn lemma_step_accepted_bounded(pre: NodeView, src: u64, dgram: Datagram, now: u128)
    requires
        pre.last_accepted is Some && pre.last_promised is Some ==> ballot_le(
            pre.last_accepted->0.seq,
            pre.last_promised->0,
        ),
        (match dgram {
            Datagram::Request(Request::Accept { seq, value }) => pre.last_promised is Some
                && ballot_le(seq, pre.last_promised->0),
            Datagram::Request(Request::Prepare { seq }) => pre.last_promised is Some
                || pre.last_accepted is None,
            _ => true,
        }),
    ensures
        ({
            let post = node_step(pre, src, dgram, now).node;
            post.last_accepted is Some && post.last_promised is Some ==> ballot_le(
                post.last_accepted->0.seq,
                post.last_promised->0,
            )
        }),
{
}

/// One step never turns the ballot clock back.
pub proof fn lemma_step_clock_monotonic(pre: NodeView, src: u64, dgram: Datagram, now: u128)
    ensures
        node_step(pre, src, dgram, now).node.clock >= pre.clock,
{
}

/// Along any run, the ballot clock is non-decreasing.
pub proof fn lemma_run_clock_monotonic(pre: NodeView, evs: Seq<Event>, i: int, j: int)
    requires
        0 <= i <= j <= evs.len(),
    ensures
        run(pre, evs.take(j)).clock >= run(pre, evs.take(i)).clock,
    decreases j - i,
{
    if i < j {
        lemma_run_clock_monotonic(pre, evs, i, j - 1);
        let prefix = evs.take(j);
        assert(prefix.drop_last() =~= evs.take(j - 1));
        lemma_step_clock_monotonic(
            run(pre, evs.take(j - 1)),
            prefix.last().src,
            prefix.last().dgram,
            prefix.last().now,
        );
    }
}

/// The ballot a propose handled in state `pre` opens its round with.
pub open spec fn propose_ballot(pre: NodeView, now: u128) -> SequenceNumber {
    SequenceNumber { time_stamp: next_clock(pre.clock, now), server_id: pre.self_id }
}

/// Ballot uniqueness: two propose requests handled at distinct points of one
/// replica's run open their rounds under distinct ballots, as long as the
/// ballot clock is not exhausted. (A clock already at the largest
/// representable value can no longer advance; until then every proposal's
/// ballot is strictly above every earlier one.)
pub proof fn lemma_ballot_unique(pre: NodeView, evs: Seq<Event>, i: int, j: int)
    requires
        0 <= i < j < evs.len(),
        evs[i].dgram matches Datagram::Request(Request::Propose { .. }),
        evs[j].dgram matches Datagram::Request(Request::Propose { .. }),
        run(pre, evs.take(i)).chosen is None,
        run(pre, evs.take(j)).chosen is None,
        run(pre, evs.take(j)).clock < u128::MAX,
    ensures
        propose_ballot(run(pre, evs.take(i)), evs[i].now) != propose_ballot(
            run(pre, evs.take(j)),
            evs[j].now,
        ),
        propose_ballot(run(pre, evs.take(i)), evs[i].now).time_stamp < propose_ballot(
            run(pre, evs.take(j)),
            evs[j].now,
        ).time_stamp,
{
    let si = run(pre, evs.take(i));
    let sj = run(pre, evs.take(j));
    let bi = propose_ballot(si, evs[i].now);
    let bj = propose_ballot(sj, evs[j].now);
    let step_i = evs.take(i + 1);
    assert(step_i.drop_last() =~= evs.take(i));
    assert(step_i.last() == evs[i]);
    assert(run(pre, evs.take(i + 1)).clock == bi.time_stamp);
    lemma_run_clock_monotonic(pre, evs, i + 1, j);
    assert(bj.time_stamp == next_clock(sj.clock, evs[j].now));
    assert(bj.time_stamp > sj.clock);
}

/// One step never changes a chosen value, and only a learn request can set
/// one.
pub proof fn lemma_step_chosen_stable(pre: NodeView, src: u64, dgram: Datagram, now: u128)
    ensures
        ({
            let post = node_step(pre, src, dgram, now).node;
            &&& pre.chosen is Some ==> post.chosen == pre.chosen
            &&& match dgram {
                Datagram::Request(Request::Learn { value }) => post.chosen == pre.chosen
                    || (pre.chosen is None && post.chosen == Some(value)),
                _ => post.chosen == pre.chosen,
            }
        }),
{
}

/// Propose after chosen never changes `chosen`: once a replica has chosen a
/// value, the rest of any run leaves it chosen.
pub proof fn lemma_chosen_stable(pre: NodeView, evs: Seq<Event>, i: int, j: int)
    requires
        0 <= i <= j <= evs.len(),
        run(pre, evs.take(i)).chosen is Some,
    ensures
        run(pre, evs.take(j)).chosen == run(pre, evs.take(i)).chosen,
    decreases j - i,
{
    if i < j {
        lemma_chosen_stable(pre, evs, i, j - 1);
        let prefix = evs.take(j);
        assert(prefix.drop_last() =~= evs.take(j - 1));
        lemma_step_chosen_stable(
            run(pre, evs.take(j - 1)),
            prefix.last().src,
            prefix.last().dgram,
            prefix.last().now,
        );
    }
}

/// Within the lifetime of one proposal — any step but a new propose — the
/// quorum bookkeeping only grows: promisers and acceptors are never
/// forgotten, and the ballot and the client's value stay what they were.
pub proof fn lemma_step_quorum_sets_grow(pre: NodeView, src: u64, dgram: Datagram, now: u128)
    requires
        !(dgram matches Datagram::Request(Request::Propose { .. })),
    ensures
        ({
            let post = node_step(pre, src, dgram, now).node;
            match (pre.proposal, post.proposal) {
                (Some(p), Some(q)) => q.seq == p.seq && q.want_value == p.want_value
                    && p.prepared.subset_of(q.prepared) && p.accepted.subset_of(q.accepted),
                (Some(p), None) => false,
                (None, Some(q)) => false,
                (None, None) => true,
            }
        }),
{
}

/// Every value a replica holds anywhere in its state.
pub open spec fn state_values(n: NodeView) -> Set<ValueType> {
    let proposal_values: Set<ValueType> = match n.proposal {
        None => Set::empty(),
        Some(p) => {
            let own: Set<ValueType> = Set::empty().insert(p.want_value);
            match p.value {
                None => own,
                Some(v) => own.insert(v),
            }
        },
    };
    let accepted_values: Set<ValueType> = match n.last_accepted {
        None => Set::empty(),
        Some(ap) => Set::empty().insert(ap.val),
    };
    let chosen_values: Set<ValueType> = match n.chosen {
        None => Set::empty(),
        Some(v) => Set::empty().insert(v),
    };
    proposal_values.union(accepted_values).union(chosen_values)
}

/// The values a datagram carries.
pub open spec fn dgram_values(d: Datagram) -> Set<ValueType> {
    match d {
        Datagram::Request(Request::Propose { value }) => Set::empty().insert(value),
        Datagram::Request(Request::Accept { seq, value }) => Set::empty().insert(value),
        Datagram::Request(Request::Learn { value }) => Set::empty().insert(value),
        Datagram::Request(Request::Prepare { .. }) => Set::empty(),
        Datagram::Request(Request::Query) => Set::empty(),
        Datagram::Response(Response::Prepare(ma)) => match ma {
            None => Set::empty(),
            Some(ap) => Set::empty().insert(ap.val),
        },
        Datagram::Response(Response::Accepted { .. }) => Set::empty(),
        Datagram::Response(Response::Query { val }) => match val {
            None => Set::empty(),
            Some(v) => Set::empty().insert(v),
        },
    }
}

/// Validity, as it shows at a single replica: a step never invents a value.
/// Whatever a step stores or sends was already in the replica's state or in
/// the message it handled; so any chosen value traces back, message by
/// message, to some client's propose request.
pub proof fn lemma_step_no_new_values(pre: NodeView, src: u64, dgram: Datagram, now: u128)
    ensures
        ({
            let s = node_step(pre, src, dgram, now);
            let known = state_values(pre).union(dgram_values(dgram));
            &&& state_values(s.node).subset_of(known)
            &&& forall|k: int|
                0 <= k < s.out.len() ==> (#[trigger] dgram_values(s.out[k].dgram)).subset_of(known)
        }),
{
    let s = node_step(pre, src, dgram, now);
    let known = state_values(pre).union(dgram_values(dgram));
    assert forall|v: ValueType| state_values(s.node).contains(v) implies known.contains(v) by {}
    assert forall|k: int| 0 <= k < s.out.len() implies (#[trigger] dgram_values(
        s.out[k].dgram,
    )).subset_of(known) by {
        assert forall|v: ValueType| dgram_values(s.out[k].dgram).contains(v) implies known.contains(
            v,
        ) by {}
    }
}

/// A lone replica whose peer set is just itself decides immediately: the
/// messages a propose request makes it emit, delivered back to itself in
/// order, end with its own value chosen. Each step below is one
/// self-delivery of the single message the previous step emitted.
pub proof fn lemma_single_replica_chooses(n0: NodeView, client: u64, v: ValueType, now: u128)
    requires
        n0.peers == Set::<u64>::empty().insert(n0.self_id),
        n0.chosen is None,
        n0.last_promised is None,
        n0.last_accepted is None,
    ensures
        ({
            let id = n0.self_id;
            let b = propose_ballot(n0, now);
            let s1 = node_step(n0, client, Datagram::Request(Request::Propose { value: v }), now);
            let s2 = node_step(s1.node, id, Datagram::Request(Request::Prepare { seq: b }), now);
            let s3 = node_step(s2.node, id, Datagram::Response(Response::Prepare(None)), now);
            let s4 = node_step(
                s3.node,
                id,
                Datagram::Request(Request::Accept { seq: b, value: v }),
                now,
            );
            let s5 = node_step(s4.node, id, Datagram::Response(Response::Accepted { seq: b }), now);
            let s6 = node_step(s5.node, id, Datagram::Request(Request::Learn { value: v }), now);
            &&& s1.out == seq![
                OutgoingView { dst: n0.peers, dgram: Datagram::Request(Request::Prepare { seq: b }) },
            ]
            &&& s2.out == seq![
                OutgoingView {
                    dst: Set::empty().insert(id),
                    dgram: Datagram::Response(Response::Prepare(None)),
                },
            ]
            &&& s3.out == seq![
                OutgoingView {
                    dst: n0.peers,
                    dgram: Datagram::Request(Request::Accept { seq: b, value: v }),
                },
            ]
            &&& s4.out == seq![
                OutgoingView {
                    dst: Set::empty().insert(id),
                    dgram: Datagram::Response(Response::Accepted { seq: b }),
                },
            ]
            &&& s5.out == seq![
                OutgoingView { dst: n0.peers, dgram: Datagram::Request(Request::Learn { value: v }) },
            ]
            &&& s6.node.chosen == Some(v)
            &&& s1.err is None && s2.err is None && s3.err is None && s4.err is None && s5.err
                is None && s6.err is None
        }),
{
    let id = n0.self_id;
    assert(n0.peers.len() == 1);
    assert(quorum(n0.peers.len()) == 1);
    let b = propose_ballot(n0, now);
    assert(ballot_le(b, b));
    let s1 = node_step(n0, client, Datagram::Request(Request::Propose { value: v }), now);
    let s2 = node_step(s1.node, id, Datagram::Request(Request::Prepare { seq: b }), now);
    let s3 = node_step(s2.node, id, Datagram::Response(Response::Prepare(None)), now);
    assert(Set::<u64>::empty().insert(id).len() == 1);
    assert(!Set::<u64>::empty().contains(id));
    let s4 = node_step(s3.node, id, Datagram::Request(Request::Accept { seq: b, value: v }), now);
    let s5 = node_step(s4.node, id, Datagram::Response(Response::Accepted { seq: b }), now);
    let s6 = node_step(s5.node, id, Datagram::Request(Request::Learn { value: v }), now);
    assert(s6.node.chosen == Some(v));
}

} // verus!
