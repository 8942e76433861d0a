//! What a pass hands back to its caller.

use vstd::prelude::*;
use crate::id_set::NodeIdSet;
use crate::pointer::NodeKey;
use crate::store::ExpansionStore;

verus! {

/// The identities of the expandable nodes that a pass met, and of those
/// that its search opens. A caller whose document or search term has
/// changed forgets these nodes, so that each is open or closed as the new
/// default has it when it is next met.
#[derive(Debug)]
pub struct JsonTreeResponse {
    pub collapsing_state_ids: NodeIdSet,
}

impl View for JsonTreeResponse {
    type V = Set<NodeKey>;

    open spec fn view(&self) -> Set<NodeKey> {
        self.collapsing_state_ids@
    }
}

impl JsonTreeResponse {
    /// Forgets what the store remembers of each node of the response.
    pub fn reset_expanded(&self, store: &mut ExpansionStore)
        requires
            old(store).wf(),
        ensures
            final(store).wf(),
            final(store)@ == old(store)@.remove_keys(self@),
    {
        store.invalidate(&self.collapsing_state_ids);
    }
}

} // verus!
