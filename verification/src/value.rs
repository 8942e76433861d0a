//! The shape of the values that a tree shows.

use vstd::prelude::*;
use crate::pointer::JsonPointerSegment;

verus! {

/// The type tag of an atomic value.
#[derive(Debug, Clone, Copy, PartialEq, Eq, Structural)]
pub enum BaseValueType {
    Null,
    Bool,
    Number,
    String,
}

/// The two kinds of node that have entries.
#[derive(Debug, Clone, Copy, PartialEq, Eq, Structural)]
pub enum ExpandableType {
    Array,
    Object,
}

/// A node of the document. An atomic node carries its display form and its
/// type tag. An expandable node carries its entries in order, each under the
/// segment that leads to it, and its kind.
#[derive(Debug)]
pub enum JsonTreeValue {
    Base(String, BaseValueType),
    Expandable(Vec<(JsonPointerSegment, JsonTreeValue)>, ExpandableType),
}

impl JsonTreeValue {
    /// Whether the node has entries to expand into.
    pub fn is_expandable(&self) -> (expandable: bool)
        ensures
            expandable == (*self is Expandable),
    {
        match self {
            JsonTreeValue::Base(_, _) => false,
            JsonTreeValue::Expandable(_, _) => true,
        }
    }
}

} // verus!
