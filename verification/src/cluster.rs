//! A mathematical model of a whole cluster: replica states plus the set of
//! messages ever put on the wire. The network is best-effort — a message may
//! be delivered late, twice or never — so delivery picks any message ever
//! sent. Validity is proved over this model: a replica can only choose a
//! value that some client submitted.

use vstd::prelude::*;

use crate::laws::{dgram_values, state_values};
use crate::node::{node_step, NodeView};
use crate::proposal::{Datagram, OutgoingView, Request, ValueType};

verus! {

/// One message on the wire.
pub ghost struct WireMsg {
    pub dst: u64,
    pub src: u64,
    pub dgram: Datagram,
}

/// The cluster: each replica's state, and every message ever sent. The wire
/// only grows; losing a message is simply never delivering it.
#[verifier::ext_equal]
pub ghost struct ClusterView {
    pub nodes: Map<u64, NodeView>,
    pub wire: Set<WireMsg>,
}

/// Something that moves the cluster: a delivery of a wire message with the
/// receiving host's clock reading, or a client submitting a proposal.
pub ghost enum ClusterEvent {
    Deliver { msg: WireMsg, now: u128 },
    Submit { dst: u64, value: ValueType },
}

/// The messages a step's outputs put on the wire: one per destination id.
pub open spec fn sent_messages(out: Seq<OutgoingView>, sender: u64) -> Set<WireMsg> {
    Set::new(
        |w: WireMsg|
            w.src == sender && exists|k: int|
                0 <= k < out.len() && (#[trigger] out[k]).dst.contains(w.dst) && out[k].dgram
                    == w.dgram,
    )
}

/// Delivering `m`: the addressed replica takes one step and its outputs
/// join the wire. A message addressed to nobody, or never sent, moves
/// nothing (id 0, the client, is no replica and such deliveries are
/// observations only).
pub open spec fn deliver(c: ClusterView, m: WireMsg, now: u128) -> ClusterView {
    if c.wire.contains(m) && c.nodes.dom().contains(m.dst) {
        let s = node_step(c.nodes[m.dst], m.src, m.dgram, now);
        ClusterView {
            nodes: c.nodes.insert(m.dst, s.node),
            wire: c.wire.union(sent_messages(s.out, m.dst)),
        }
    } else {
        c
    }
}

/// A client (id 0) submits a proposal to one replica.
pub open spec fn submit(c: ClusterView, dst: u64, value: ValueType) -> ClusterView {
    ClusterView {
        nodes: c.nodes,
        wire: c.wire.insert(
            WireMsg { dst, src: 0, dgram: Datagram::Request(Request::Propose { value }) },
        ),
    }
}

/// One cluster event applied.
pub open spec fn cluster_step(c: ClusterView, e: ClusterEvent) -> ClusterView {
    match e {
        ClusterEvent::Deliver { msg, now } => deliver(c, msg, now),
        ClusterEvent::Submit { dst, value } => submit(c, dst, value),
    }
}

/// The cluster after a whole sequence of events.
pub open spec fn cluster_run(c: ClusterView, evs: Seq<ClusterEvent>) -> ClusterView
    decreases evs.len(),
{
    if evs.len() == 0 {
        c
    } else {
        cluster_step(cluster_run(c, evs.drop_last()), evs.last())
    }
}

/// The values clients submitted among `evs`.
pub open spec fn submitted_values(evs: Seq<ClusterEvent>) -> Set<ValueType> {
    Set::new(
        |v: ValueType|
            exists|k: int|
                0 <= k < evs.len() && ((#[trigger] evs[k]) matches ClusterEvent::Submit {
                    dst,
                    value,
                } && value == v),
    )
}

/// A fresh replica: nothing promised, accepted, chosen or proposed.
pub open spec fn fresh_node(n: NodeView) -> bool {
    n.proposal is None && n.last_promised is None && n.last_accepted is None && n.chosen is None
}

/// A fresh cluster: every replica fresh, nothing on the wire yet.
pub open spec fn fresh_cluster(c: ClusterView) -> bool {
    &&& forall|id: u64| c.nodes.dom().contains(id) ==> fresh_node(#[trigger] c.nodes[id])
    &&& c.wire =~= Set::<WireMsg>::empty()
}

/// Every value anywhere in the cluster — replica state or wire — lies in
/// `vals`.
pub open spec fn values_confined(c: ClusterView, vals: Set<ValueType>) -> bool {
    &&& forall|id: u64|
        c.nodes.dom().contains(id) ==> state_values(#[trigger] c.nodes[id]).subset_of(vals)
    &&& forall|m: WireMsg| #[trigger] c.wire.contains(m) ==> dgram_values(m.dgram).subset_of(vals)
}

/// Delivering a message keeps every value confined: a replica step never
/// invents a value.
proof fn lemma_deliver_confined(c: ClusterView, m: WireMsg, now: u128, vals: Set<ValueType>)
    requires
        values_confined(c, vals),
    ensures
        values_confined(deliver(c, m, now), vals),
{
    if c.wire.contains(m) && c.nodes.dom().contains(m.dst) {
        let s = node_step(c.nodes[m.dst], m.src, m.dgram, now);
        crate::laws::lemma_step_no_new_values(c.nodes[m.dst], m.src, m.dgram, now);
        let post = deliver(c, m, now);
        assert forall|id: u64| post.nodes.dom().contains(id) implies state_values(
            #[trigger] post.nodes[id],
        ).subset_of(vals) by {}
        assert forall|w: WireMsg| #[trigger] post.wire.contains(w) implies dgram_values(
            w.dgram,
        ).subset_of(vals) by {
            if !c.wire.contains(w) {
                let k = choose|k: int|
                    0 <= k < s.out.len() && (#[trigger] s.out[k]).dst.contains(w.dst)
                        && s.out[k].dgram == w.dgram;
                assert(dgram_values(s.out[k].dgram).subset_of(
                    state_values(c.nodes[m.dst]).union(dgram_values(m.dgram)),
                ));
            }
        }
    }
}

/// A submission keeps every value confined, provided the submitted value is
/// itself in the set.
proof fn lemma_submit_confined(c: ClusterView, dst: u64, value: ValueType, vals: Set<ValueType>)
    requires
        values_confined(c, vals),
        vals.contains(value),
    ensures
        values_confined(submit(c, dst, value), vals),
{
}

/// Along any run from a fresh cluster, every value anywhere was submitted
/// by some client.
proof fn lemma_run_confined(c0: ClusterView, evs: Seq<ClusterEvent>, vals: Set<ValueType>)
    requires
        fresh_cluster(c0),
        submitted_values(evs).subset_of(vals),
    ensures
        values_confined(cluster_run(c0, evs), vals),
    decreases evs.len(),
{
    if evs.len() == 0 {
    } else {
        let head = evs.drop_last();
        assert(submitted_values(head).subset_of(vals)) by {
            assert forall|v: ValueType| submitted_values(head).contains(v)
                implies vals.contains(v) by {
                let k = choose|k: int|
                    0 <= k < head.len() && ((#[trigger] head[k]) matches ClusterEvent::Submit {
                        dst,
                        value,
                    } && value == v);
                assert(evs[k] == head[k]);
                assert(submitted_values(evs).contains(v));
            }
        }
        lemma_run_confined(c0, head, vals);
        let c = cluster_run(c0, head);
        match evs.last() {
            ClusterEvent::Deliver { msg, now } => {
                lemma_deliver_confined(c, msg, now, vals);
            },
            ClusterEvent::Submit { dst, value } => {
                let k = evs.len() - 1;
                assert(evs[k] matches ClusterEvent::Submit { dst: d2, value: v2 } && v2 == value);
                assert(submitted_values(evs).contains(value));
                lemma_submit_confined(c, dst, value, vals);
            },
        }
    }
}

/// Validity: in any run of a fresh cluster, if some replica ends with
/// `chosen = Some(v)`, then `v` was the value of some client submission in
/// that run.
pub proof fn lemma_validity(c0: ClusterView, evs: Seq<ClusterEvent>, id: u64, v: ValueType)
    requires
        fresh_cluster(c0),
        cluster_run(c0, evs).nodes.dom().contains(id),
        cluster_run(c0, evs).nodes[id].chosen == Some(v),
    ensures
        submitted_values(evs).contains(v),
{
    lemma_run_confined(c0, evs, submitted_values(evs));
    let n = cluster_run(c0, evs).nodes[id];
    assert(state_values(n).contains(v));
}

/// Agreement, in the one case this model settles outright: when every
/// client submission of a run carries the same value, two replicas that
/// both choose, choose the same value. (With competing values it is the
/// quorum intersection argument that carries agreement, which this model
/// does not prove.)
pub proof fn lemma_agreement_uniform_submissions(
    c0: ClusterView,
    evs: Seq<ClusterEvent>,
    v0: ValueType,
    i: u64,
    j: u64,
    vi: ValueType,
    vj: ValueType,
)
    requires
        fresh_cluster(c0),
        submitted_values(evs).subset_of(Set::empty().insert(v0)),
        cluster_run(c0, evs).nodes.dom().contains(i),
        cluster_run(c0, evs).nodes.dom().contains(j),
        cluster_run(c0, evs).nodes[i].chosen == Some(vi),
        cluster_run(c0, evs).nodes[j].chosen == Some(vj),
    ensures
        vi == vj,
        vi == v0,
{
    lemma_validity(c0, evs, i, vi);
    lemma_validity(c0, evs, j, vj);
}

} // verus!
