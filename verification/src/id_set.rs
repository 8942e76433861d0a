//! A set of node identities.

use vstd::prelude::*;
use crate::pointer::NodeId;
use crate::pointer::NodeKey;

verus! {

/// The identities that a sequence of identifiers stands for, in order.
pub open spec fn id_keys(ids: Seq<NodeId>) -> Seq<NodeKey> {
    Seq::new(ids.len(), |i: int| ids[i]@)
}

/// A finite set of node identities. Adding an identity that is already in
/// the set changes nothing.
#[derive(Debug)]
pub struct NodeIdSet {
    ids: Vec<NodeId>,
}

impl View for NodeIdSet {
    type V = Set<NodeKey>;

    closed spec fn view(&self) -> Set<NodeKey> {
        id_keys(self.ids@).to_set()
    }
}

impl Default for NodeIdSet {
    fn default() -> (set: Self)
        ensures
            set.wf(),
            set@ == Set::<NodeKey>::empty(),
    {
        NodeIdSet::new()
    }
}

impl NodeIdSet {
    /// No identity is stored twice.
    pub closed spec fn wf(&self) -> bool {
        id_keys(self.ids@).no_duplicates()
    }

    /// The empty set.
    pub fn new() -> (set: NodeIdSet)
        ensures
            set.wf(),
            set@ == Set::<NodeKey>::empty(),
    {
        let set = NodeIdSet { ids: Vec::new() };
        assert(set@ =~= Set::<NodeKey>::empty());
        set
    }

    /// Whether the identity is in the set.
    pub fn contains(&self, id: &NodeId) -> (found: bool)
        ensures
            found == self@.contains(id@),
    {
        let mut i: usize = 0;
        while i < self.ids.len()
            invariant
                i <= self.ids.len(),
                forall|j: int| 0 <= j < i ==> id_keys(self.ids@)[j] != id@,
            decreases self.ids.len() - i,
        {
            if self.ids[i].same(id) {
                assert(id_keys(self.ids@)[i as int] == id@);
                return true;
            }
            i = i + 1;
        }
        false
    }

    /// Adds the identity to the set, and says whether it was new.
    pub fn insert(&mut self, id: NodeId) -> (fresh: bool)
        ensures
            old(self).wf() ==> final(self).wf(),
            final(self)@ == old(self)@.insert(id@),
            fresh == !old(self)@.contains(id@),
    {
        if self.contains(&id) {
            assert(self@.insert(id@) =~= self@);
            false
        } else {
            let ghost before = id_keys(self.ids@);
            self.ids.push(id);
            assert(id_keys(self.ids@) =~= before.push(id@));
            assert(before.push(id@).to_set() =~= before.to_set().insert(id@)) by {
                assert forall|k: NodeKey| before.push(id@).contains(k) implies before.contains(k)
                    || k == id@ by {
                    let i = choose|i: int| 0 <= i < before.len() + 1 && before.push(id@)[i] == k;
                    if i < before.len() {
                        assert(before[i] == k);
                    }
                }
                assert forall|k: NodeKey| before.contains(k) || k == id@ implies before.push(
                    id@,
                ).contains(k) by {
                    if before.contains(k) {
                        let i = choose|i: int| 0 <= i < before.len() && before[i] == k;
                        assert(before.push(id@)[i] == k);
                    } else {
                        assert(before.push(id@)[before.len() as int] == k);
                    }
                }
            }
            true
        }
    }

    /// The number of identities in the set.
    pub fn len(&self) -> (n: usize)
        requires
            self.wf(),
        ensures
            self@.finite(),
            n == self@.len(),
    {
        proof {
            vstd::seq_lib::seq_to_set_is_finite(id_keys(self.ids@));
            id_keys(self.ids@).unique_seq_to_set();
        }
        self.ids.len()
    }

    /// The identities of the set, each one once.
    pub fn ids(&self) -> (ids: &Vec<NodeId>)
        ensures
            self.wf() ==> id_keys(ids@).no_duplicates(),
            id_keys(ids@).to_set() == self@,
    {
        &self.ids
    }
}

} // verus!
