//! The memory of which nodes are open, kept from one pass to the next.

use vstd::prelude::*;
use crate::id_set::id_keys;
use crate::id_set::NodeIdSet;
use crate::pointer::NodeId;
use crate::pointer::NodeKey;

verus! {

/// Whether some entry is filed under the key.
spec fn holds(entries: Seq<(NodeId, bool)>, key: NodeKey) -> bool {
    exists|i: int| 0 <= i < entries.len() && (#[trigger] entries[i]).0@ == key
}

/// The position of an entry filed under the key.
spec fn slot(entries: Seq<(NodeId, bool)>, key: NodeKey) -> int {
    choose|i: int| 0 <= i < entries.len() && (#[trigger] entries[i]).0@ == key
}

/// No key has two entries.
spec fn distinct_keys(entries: Seq<(NodeId, bool)>) -> bool {
    forall|i: int, j: int|
        0 <= i < j < entries.len() ==> (#[trigger] entries[i]).0@ != (#[trigger] entries[j]).0@
}

/// The open state that the entries remember, by node.
spec fn remembered(entries: Seq<(NodeId, bool)>) -> Map<NodeKey, bool> {
    Map::new(|key: NodeKey| holds(entries, key), |key: NodeKey| entries[slot(entries, key)].1)
}

/// Remembers, for the nodes that were met so far, whether each is open.
#[derive(Debug)]
pub struct ExpansionStore {
    entries: Vec<(NodeId, bool)>,
}

impl View for ExpansionStore {
    type V = Map<NodeKey, bool>;

    closed spec fn view(&self) -> Map<NodeKey, bool> {
        remembered(self.entries@)
    }
}

impl Default for ExpansionStore {
    fn default() -> (store: Self)
        ensures
            store.wf(),
            store@ == Map::<NodeKey, bool>::empty(),
    {
        ExpansionStore::new()
    }
}

impl ExpansionStore {
    /// No node is remembered twice.
    pub closed spec fn wf(&self) -> bool {
        distinct_keys(self.entries@)
    }

    /// A store that remembers nothing.
    pub fn new() -> (store: ExpansionStore)
        ensures
            store.wf(),
            store@ == Map::<NodeKey, bool>::empty(),
    {
        let store = ExpansionStore { entries: Vec::new() };
        assert(store@ =~= Map::<NodeKey, bool>::empty());
        store
    }

    fn position(&self, id: &NodeId) -> (found: Option<usize>)
        ensures
            match found {
                Some(i) => i < self.entries.len() && self.entries[i as int].0@ == id@,
                None => !holds(self.entries@, id@),
            },
    {
        let mut i: usize = 0;
        while i < self.entries.len()
            invariant
                i <= self.entries.len(),
                forall|j: int| 0 <= j < i ==> (#[trigger] self.entries[j]).0@ != id@,
            decreases self.entries.len() - i,
        {
            if self.entries[i].0.same(id) {
                return Some(i);
            }
            i = i + 1;
        }
        None
    }

    /// What is remembered of the node, if anything.
    pub fn get(&self, id: &NodeId) -> (open: Option<bool>)
        requires
            self.wf(),
        ensures
            open == if self@.contains_key(id@) {
                Some(self@[id@])
            } else {
                None
            },
    {
        match self.position(id) {
            Some(i) => Some(self.entries[i].1),
            None => None,
        }
    }

    /// Whether the node is open. A node that is met for the first time is
    /// remembered with the given default.
    pub fn get_or_seed(&mut self, id: &NodeId, default_open: bool) -> (open: bool)
        requires
            old(self).wf(),
        ensures
            final(self).wf(),
            old(self)@.contains_key(id@) ==> open == old(self)@[id@] && final(self)@ == old(self)@,
            !old(self)@.contains_key(id@) ==> open == default_open && final(self)@ == old(
                self,
            )@.insert(id@, default_open),
    {
        match self.position(id) {
            Some(i) => self.entries[i].1,
            None => {
                let ghost before = self.entries@;
                self.entries.push((id.clone(), default_open));
                proof {
                    let after = self.entries@;
                    assert forall|key: NodeKey| #[trigger] holds(after, key) <==> holds(before, key)
                        || key == id@ by {
                        if holds(after, key) {
                            let i = slot(after, key);
                            if i < before.len() {
                                assert(before[i].0@ == key);
                            }
                        }
                        if holds(before, key) {
                            let i = slot(before, key);
                            assert(after[i].0@ == key);
                        }
                        if key == id@ {
                            assert(after[before.len() as int].0@ == key);
                        }
                    }
                    assert forall|key: NodeKey| holds(before, key) implies after[slot(after, key)].1
                        == before[slot(before, key)].1 by {
                        let i = slot(before, key);
                        assert(after[i].0@ == key);
                    }
                    assert(after[slot(after, id@)].1 == default_open) by {
                        assert(after[before.len() as int].0@ == id@);
                    }
                    assert(self@ =~= old(self)@.insert(id@, default_open));
                }
                default_open
            },
        }
    }

    /// Remembers the node as open or as closed.
    pub fn set(&mut self, id: &NodeId, open: bool)
        requires
            old(self).wf(),
        ensures
            final(self).wf(),
            final(self)@ == old(self)@.insert(id@, open),
    {
        self.remove(id);
        let _ = self.get_or_seed(id, open);
        proof {
            assert(self@ =~= old(self)@.insert(id@, open));
        }
    }

    /// Flips what is remembered of the node, and returns the new state. A
    /// node that is not remembered stays so.
    pub fn toggle(&mut self, id: &NodeId) -> (open: Option<bool>)
        requires
            old(self).wf(),
        ensures
            final(self).wf(),
            old(self)@.contains_key(id@) ==> open == Some(!old(self)@[id@]) && final(self)@ == old(
                self,
            )@.insert(id@, !old(self)@[id@]),
            !old(self)@.contains_key(id@) ==> open.is_none() && final(self)@ == old(self)@,
    {
        match self.get(id) {
            Some(was_open) => {
                self.set(id, !was_open);
                Some(!was_open)
            },
            None => None,
        }
    }

    /// Forgets the node.
    pub fn remove(&mut self, id: &NodeId)
        requires
            old(self).wf(),
        ensures
            final(self).wf(),
            final(self)@ == old(self)@.remove(id@),
    {
        match self.position(id) {
            Some(i) => {
                let ghost before = self.entries@;
                let _ = self.entries.remove(i);
                proof {
                    let after = self.entries@;
                    assert forall|j: int| 0 <= j < after.len() implies #[trigger] after[j]
                        == before[if j < i { j } else { j + 1 }] by {}
                    assert forall|key: NodeKey| #[trigger] holds(after, key) <==> holds(before, key)
                        && key != id@ by {
                        if holds(after, key) {
                            let j = slot(after, key);
                            let b = if j < i { j } else { j + 1 };
                            assert(before[b].0@ == key);
                        }
                        if holds(before, key) && key != id@ {
                            let b = slot(before, key);
                            let j = if b < i { b } else { b - 1 };
                            assert(after[j].0@ == key);
                        }
                    }
                    assert forall|key: NodeKey| holds(after, key) implies after[slot(after, key)].1
                        == before[slot(before, key)].1 by {
                        let j = slot(after, key);
                        let b = if j < i { j } else { j + 1 };
                        assert(before[b].0@ == key);
                    }
                    assert(self@ =~= old(self)@.remove(id@));
                }
            },
            None => {
                assert(self@ =~= old(self)@.remove(id@));
            },
        }
    }

    /// Forgets every node of the given set, so that each is remembered anew,
    /// with the default of the day, when it is next met.
    pub fn invalidate(&mut self, ids: &NodeIdSet)
        requires
            old(self).wf(),
        ensures
            final(self).wf(),
            final(self)@ == old(self)@.remove_keys(ids@),
    {
        let all = ids.ids();
        let mut i: usize = 0;
        while i < all.len()
            invariant
                i <= all.len(),
                self.wf(),
                self@ == old(self)@.remove_keys(id_keys(all@).take(i as int).to_set()),
            decreases all.len() - i,
        {
            let ghost done = id_keys(all@).take(i as int);
            self.remove(&all[i]);
            proof {
                let next = id_keys(all@).take(i + 1);
                assert(next =~= done.push(all[i as int]@));
                assert(next.to_set() =~= done.to_set().insert(all[i as int]@)) by {
                    assert forall|k: NodeKey| next.contains(k) implies done.contains(k) || k
                        == all[i as int]@ by {
                        let j = choose|j: int| 0 <= j < next.len() && next[j] == k;
                        if j < done.len() {
                            assert(done[j] == k);
                        }
                    }
                    assert forall|k: NodeKey| done.contains(k) || k
                        == all[i as int]@ implies next.contains(k) by {
                        if done.contains(k) {
                            let j = choose|j: int| 0 <= j < done.len() && done[j] == k;
                            assert(next[j] == k);
                        } else {
                            assert(next[done.len() as int] == k);
                        }
                    }
                }
                assert(self@ =~= old(self)@.remove_keys(next.to_set()));
            }
            i = i + 1;
        }
        assert(id_keys(all@).take(all.len() as int) =~= id_keys(all@));
    }

    /// The number of nodes that are remembered.
    pub fn len(&self) -> (n: usize)
        requires
            self.wf(),
        ensures
            self@.dom().finite(),
            n == self@.len(),
    {
        proof {
            let entries = self.entries@;
            let keys = Seq::new(entries.len(), |i: int| entries[i].0@);
            assert(keys.no_duplicates());
            keys.unique_seq_to_set();
            vstd::seq_lib::seq_to_set_is_finite(keys);
            assert(self@.dom() =~= keys.to_set()) by {
                assert forall|key: NodeKey| holds(entries, key) implies keys.contains(key) by {
                    assert(keys[slot(entries, key)] == key);
                }
                assert forall|key: NodeKey| keys.contains(key) implies holds(entries, key) by {
                    let i = choose|i: int| 0 <= i < keys.len() && keys[i] == key;
                    assert(entries[i].0@ == key);
                }
            }
        }
        self.entries.len()
    }
}

} // verus!
