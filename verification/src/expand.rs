//! Which nodes are open before the user has touched them.

use vstd::prelude::*;
use crate::id_set::NodeIdSet;
use crate::pointer::NodeId;
use crate::pointer::NodeKey;

verus! {

/// The choice a caller has for the nodes that nothing is remembered of.
#[derive(Debug, Clone, Copy)]
pub enum DefaultExpand<'a> {
    /// Every node is open.
    All,
    /// Every node is closed.
    Closed,
    /// A node is open if its depth is at most the given level. The root has
    /// depth 0.
    ToLevel(u8),
    /// A node is open if an entry that matches the search term lies below it.
    SearchResults(&'a str),
}

impl<'a> Default for DefaultExpand<'a> {
    fn default() -> (choice: Self)
        ensures
            choice is Closed,
    {
        DefaultExpand::Closed
    }
}

/// The rule that a walk goes by, as the contracts see it.
pub enum Policy {
    All,
    Closed,
    ToLevel(nat),
    Paths(Set<NodeKey>),
}

/// The rule that a walk goes by: the caller's choice, with a search already
/// resolved into the set of nodes that it opens.
#[derive(Debug)]
pub enum InnerExpand {
    All,
    Closed,
    ToLevel(u8),
    Paths(NodeIdSet),
}

impl View for InnerExpand {
    type V = Policy;

    open spec fn view(&self) -> Policy {
        match self {
            InnerExpand::All => Policy::All,
            InnerExpand::Closed => Policy::Closed,
            InnerExpand::ToLevel(level) => Policy::ToLevel(*level as nat),
            InnerExpand::Paths(ids) => Policy::Paths(ids@),
        }
    }
}

/// Whether the rule opens the node. Under `ToLevel`, a node is open exactly
/// if its depth is at most the level.
pub open spec fn default_open(policy: Policy, key: NodeKey) -> bool {
    match policy {
        Policy::All => true,
        Policy::Closed => false,
        Policy::ToLevel(level) => key.path.len() <= level,
        Policy::Paths(open) => open.contains(key),
    }
}

/// Whether the node is open: as remembered, or else as the rule has it.
pub open spec fn is_open(policy: Policy, store: Map<NodeKey, bool>, key: NodeKey) -> bool {
    if store.contains_key(key) {
        store[key]
    } else {
        default_open(policy, key)
    }
}

/// All the nodes that are open under the rule and the store.
pub open spec fn open_nodes(policy: Policy, store: Map<NodeKey, bool>) -> Set<NodeKey> {
    Set::new(|key: NodeKey| is_open(policy, store, key))
}

/// The store after the given nodes were met: each of them that was not
/// remembered is now remembered as the rule has it.
pub open spec fn seeded(store: Map<NodeKey, bool>, met: Set<NodeKey>, policy: Policy) -> Map<
    NodeKey,
    bool,
> {
    Map::new(
        |key: NodeKey| store.contains_key(key) || met.contains(key),
        |key: NodeKey| is_open(policy, store, key),
    )
}

impl InnerExpand {
    /// Whether the rule opens the node.
    pub fn default_open(&self, id: &NodeId) -> (open: bool)
        ensures
            open == default_open(self@, id@),
    {
        match self {
            InnerExpand::All => true,
            InnerExpand::Closed => false,
            InnerExpand::ToLevel(level) => id.pointer.len() <= *level as usize,
            InnerExpand::Paths(ids) => ids.contains(id),
        }
    }
}

/// Meeting nodes changes nothing about which nodes are open.
pub proof fn lemma_seeding_keeps_open_nodes(
    store: Map<NodeKey, bool>,
    met: Set<NodeKey>,
    policy: Policy,
)
    ensures
        open_nodes(policy, seeded(store, met, policy)) == open_nodes(policy, store),
{
    assert(open_nodes(policy, seeded(store, met, policy)) =~= open_nodes(policy, store));
}

/// Meeting nodes overrides nothing: what was remembered of a node stays as
/// it was, and exactly the nodes that were met are remembered in addition.
pub proof fn lemma_seeding_keeps_what_is_remembered(
    store: Map<NodeKey, bool>,
    met: Set<NodeKey>,
    policy: Policy,
)
    ensures
        seeded(store, met, policy).dom() == store.dom().union(met),
        forall|key: NodeKey|
            store.contains_key(key) ==> #[trigger] seeded(store, met, policy)[key] == store[key],
        forall|key: NodeKey|
            met.contains(key) && !store.contains_key(key) ==> #[trigger] seeded(
                store,
                met,
                policy,
            )[key] == default_open(policy, key),
{
    assert(seeded(store, met, policy).dom() =~= store.dom().union(met));
}

/// Under `ToLevel(level)`, a node at depth `depth` is open by default if and
/// only if `depth <= level`.
pub proof fn lemma_to_level_opens_up_to_level(level: nat, key: NodeKey)
    ensures
        default_open(Policy::ToLevel(level), key) <==> key.path.len() <= level,
{
}

/// A node that was forgotten is open, when it is next met, exactly if the
/// rule of the day opens it.
pub proof fn lemma_forgotten_node_follows_rule(
    store: Map<NodeKey, bool>,
    forgotten: Set<NodeKey>,
    policy: Policy,
    key: NodeKey,
)
    requires
        forgotten.contains(key),
    ensures
        is_open(policy, store.remove_keys(forgotten), key) == default_open(policy, key),
{
}

} // verus!
