use vstd::prelude::*;

verus! {

/// A set of replica identifiers, kept as a duplicate-free vector and viewed
/// as a mathematical `Set<u64>` in specifications. Replicas use it for the
/// peer table and for the quorum bookkeeping of an active proposal.
#[derive(Debug, PartialEq, Eq)]
pub struct IdSet {
    pub ids: Vec<u64>,
}

impl View for IdSet {
    type V = Set<u64>;

    open spec fn view(&self) -> Set<u64> {
        self.ids@.to_set()
    }
}

impl IdSet {
    /// The vector holds each identifier at most once, so its length is the
    /// cardinality of the set it represents.
    pub open spec fn wf(&self) -> bool {
        self.ids@.no_duplicates()
    }

    pub fn new() -> (r: IdSet)
        ensures
            r.wf(),
            r@ == Set::<u64>::empty(),
    {
        let r = IdSet { ids: Vec::new() };
        proof {
            assert(r@ =~= Set::<u64>::empty());
        }
        r
    }

    /// A one-element set, used as the destination of a unicast reply.
    pub fn singleton(id: u64) -> (r: IdSet)
        ensures
            r.wf(),
            r@ == Set::<u64>::empty().insert(id),
    {
        let mut ids: Vec<u64> = Vec::new();
        ids.push(id);
        let r = IdSet { ids };
        proof {
            Seq::<u64>::empty().lemma_push_to_set_commute(id);
            assert(r.ids@ =~= Seq::<u64>::empty().push(id));
            assert(Seq::<u64>::empty().to_set() =~= Set::<u64>::empty());
        }
        r
    }

    pub fn contains(&self, id: u64) -> (r: bool)
        ensures
            r == self@.contains(id),
    {
        let mut i: usize = 0;
        while i < self.ids.len()
            invariant
                i <= self.ids.len(),
                forall|j: int| 0 <= j < i ==> self.ids@[j] != id,
            decreases self.ids.len() - i,
        {
            if self.ids[i] == id {
                return true;
            }
            i += 1;
        }
        false
    }

    /// Inserts `id`; returns whether it was newly added.
    pub fn insert(&mut self, id: u64) -> (r: bool)
        requires
            old(self).wf(),
        ensures
            final(self).wf(),
            final(self)@ == old(self)@.insert(id),
            r == !old(self)@.contains(id),
    {
        if self.contains(id) {
            proof {
                assert(self@ =~= self@.insert(id));
            }
            false
        } else {
            self.ids.push(id);
            proof {
                old(self).ids@.lemma_push_to_set_commute(id);
                assert(self@ =~= old(self)@.insert(id));
            }
            true
        }
    }

    /// The number of identifiers in the set.
    pub fn len(&self) -> (r: usize)
        requires
            self.wf(),
        ensures
            r == self@.len(),
    {
        proof {
            self.ids@.unique_seq_to_set();
        }
        self.ids.len()
    }

    /// A fresh `IdSet` holding the same identifiers, used to address an
    /// outgoing broadcast without giving up the peer table.
    pub fn duplicate(&self) -> (r: IdSet)
        ensures
            r.wf() == self.wf(),
            r@ == self@,
            r.ids@ == self.ids@,
    {
        let mut ids: Vec<u64> = Vec::new();
        let mut i: usize = 0;
        while i < self.ids.len()
            invariant
                i <= self.ids.len(),
                ids@ == self.ids@.subrange(0, i as int),
            decreases self.ids.len() - i,
        {
            ids.push(self.ids[i]);
            proof {
                assert(ids@ =~= self.ids@.subrange(0, i + 1));
            }
            i += 1;
        }
        proof {
            assert(ids@ =~= self.ids@);
        }
        IdSet { ids }
    }

    /// The identifiers as a plain vector, for a host program that fans a
    /// datagram out to each destination.
    pub fn as_vec(&self) -> (r: &Vec<u64>)
        ensures
            r@ == self.ids@,
            r@.to_set() == self@,
    {
        &self.ids
    }
}

} // verus!
