//! What a caller can set before a tree is shown.

use vstd::prelude::*;
use crate::expand::open_nodes;
use crate::expand::DefaultExpand;
use crate::expand::Policy;
use crate::model::Frame;
use crate::pointer::NodeKey;
use crate::pointer::Segment;
use crate::search::search_opens;
use crate::style::JsonTreeStyle;
use crate::value::JsonTreeValue;

verus! {

/// The settings of a tree. What is left out takes its default.
#[derive(Debug, Clone, Copy)]
pub struct JsonTreeConfig<'a> {
    pub style: Option<JsonTreeStyle>,
    pub default_expand: Option<DefaultExpand<'a>>,
}

impl<'a> JsonTreeConfig<'a> {
    /// Whether a closed root is drawn as one marker. Without a style it is.
    pub open spec fn abbreviate_root(&self) -> bool {
        match self.style {
            Some(style) => style.abbreviate_root,
            None => true,
        }
    }

    /// The rule that the settings stand for, on the given document: the
    /// choice as it is, with a search resolved into the nodes that it opens.
    /// Without a choice every node is closed, and an empty search text
    /// opens nothing.
    pub open spec fn policy(&self, value: JsonTreeValue, tree: u64) -> Policy {
        match self.default_expand {
            Some(DefaultExpand::All) => Policy::All,
            Some(DefaultExpand::Closed) => Policy::Closed,
            Some(DefaultExpand::ToLevel(level)) => Policy::ToLevel(level as nat),
            Some(DefaultExpand::SearchResults(search_str)) => Policy::Paths(
                if search_str@.len() == 0 {
                    Set::<NodeKey>::empty()
                } else {
                    search_opens(value, Seq::<Segment>::empty(), tree, search_str@)
                },
            ),
            None => Policy::Closed,
        }
    }
}

impl<'a> JsonTreeConfig<'a> {
    /// What a pass over the given document goes by, if it starts with the
    /// given store.
    pub open spec fn frame(&self, value: JsonTreeValue, tree: u64, store: Map<NodeKey, bool>) -> Frame {
        Frame {
            tree,
            abbreviate_root: self.abbreviate_root(),
            open: open_nodes(self.policy(value, tree), store),
        }
    }
}

impl<'a> Default for JsonTreeConfig<'a> {
    fn default() -> (config: Self)
        ensures
            config.style.is_none(),
            config.default_expand.is_none(),
    {
        JsonTreeConfig { style: None, default_expand: None }
    }
}

/// The nodes that a rule names one by one: those that a search opens.
pub open spec fn named_nodes(policy: Policy) -> Set<NodeKey> {
    match policy {
        Policy::Paths(open) => open,
        _ => Set::empty(),
    }
}

} // verus!
