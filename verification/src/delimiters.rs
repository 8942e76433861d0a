//! The structural markers that surround the content of a node.

use vstd::prelude::*;
use crate::value::ExpandableType;

verus! {

/// A marker that stands for an expandable node, or opens or closes it.
#[derive(Debug, Clone, Copy, PartialEq, Eq, Structural)]
pub enum ExpandableDelimiter {
    CollapsedArray,
    CollapsedEmptyArray,
    OpeningArray,
    ClosingArray,
    CollapsedObject,
    CollapsedEmptyObject,
    OpeningObject,
    ClosingObject,
}

/// A marker that separates what stands next to it.
#[derive(Debug, Clone, Copy, PartialEq, Eq, Structural)]
pub enum SpacingDelimiter {
    Empty,
    Comma,
    Colon,
}

/// The four markers of one kind of expandable node.
#[derive(Debug, Clone, Copy, PartialEq, Eq, Structural)]
pub struct ExpandableDelimiters {
    pub collapsed: ExpandableDelimiter,
    pub collapsed_empty: ExpandableDelimiter,
    pub opening: ExpandableDelimiter,
    pub closing: ExpandableDelimiter,
}

/// The markers of arrays and of objects.
pub open spec fn delimiters_of(kind: ExpandableType) -> ExpandableDelimiters {
    match kind {
        ExpandableType::Array => ExpandableDelimiters {
            collapsed: ExpandableDelimiter::CollapsedArray,
            collapsed_empty: ExpandableDelimiter::CollapsedEmptyArray,
            opening: ExpandableDelimiter::OpeningArray,
            closing: ExpandableDelimiter::ClosingArray,
        },
        ExpandableType::Object => ExpandableDelimiters {
            collapsed: ExpandableDelimiter::CollapsedObject,
            collapsed_empty: ExpandableDelimiter::CollapsedEmptyObject,
            opening: ExpandableDelimiter::OpeningObject,
            closing: ExpandableDelimiter::ClosingObject,
        },
    }
}

/// The marker that stands for a whole closed node: one form for a node with
/// entries, another for a node without.
pub open spec fn collapsed_of(kind: ExpandableType, entries: nat) -> ExpandableDelimiter {
    if entries == 0 {
        delimiters_of(kind).collapsed_empty
    } else {
        delimiters_of(kind).collapsed
    }
}

impl ExpandableDelimiters {
    /// The markers of the given kind of node.
    pub fn for_type(kind: ExpandableType) -> (delimiters: ExpandableDelimiters)
        ensures
            delimiters == delimiters_of(kind),
    {
        match kind {
            ExpandableType::Array => ExpandableDelimiters {
                collapsed: ExpandableDelimiter::CollapsedArray,
                collapsed_empty: ExpandableDelimiter::CollapsedEmptyArray,
                opening: ExpandableDelimiter::OpeningArray,
                closing: ExpandableDelimiter::ClosingArray,
            },
            ExpandableType::Object => ExpandableDelimiters {
                collapsed: ExpandableDelimiter::CollapsedObject,
                collapsed_empty: ExpandableDelimiter::CollapsedEmptyObject,
                opening: ExpandableDelimiter::OpeningObject,
                closing: ExpandableDelimiter::ClosingObject,
            },
        }
    }

    /// The marker for a closed node with the given number of entries.
    pub fn collapsed_for(&self, entries: usize) -> (delimiter: ExpandableDelimiter)
        ensures
            delimiter == if entries == 0 {
                self.collapsed_empty
            } else {
                self.collapsed
            },
    {
        if entries == 0 {
            self.collapsed_empty
        } else {
            self.collapsed
        }
    }
}

impl ExpandableDelimiter {
    /// The text of the marker.
    pub open spec fn text(self) -> Seq<char> {
        match self {
            ExpandableDelimiter::CollapsedArray => "[...]"@,
            ExpandableDelimiter::CollapsedEmptyArray => "[]"@,
            ExpandableDelimiter::OpeningArray => "["@,
            ExpandableDelimiter::ClosingArray => "]"@,
            ExpandableDelimiter::CollapsedObject => "{...}"@,
            ExpandableDelimiter::CollapsedEmptyObject => "{}"@,
            ExpandableDelimiter::OpeningObject => "{"@,
            ExpandableDelimiter::ClosingObject => "}"@,
        }
    }

    /// The kind of node that the marker belongs to.
    pub open spec fn kind(self) -> ExpandableType {
        match self {
            ExpandableDelimiter::CollapsedArray
            | ExpandableDelimiter::CollapsedEmptyArray
            | ExpandableDelimiter::OpeningArray
            | ExpandableDelimiter::ClosingArray => ExpandableType::Array,
            _ => ExpandableType::Object,
        }
    }

    /// Whether the marker opens a node whose entries follow.
    pub open spec fn is_opening(self) -> bool {
        self == ExpandableDelimiter::OpeningArray || self == ExpandableDelimiter::OpeningObject
    }

    /// Whether the marker closes a node that was opened.
    pub open spec fn is_closing(self) -> bool {
        self == ExpandableDelimiter::ClosingArray || self == ExpandableDelimiter::ClosingObject
    }

    /// The text to draw for the marker.
    pub fn as_str(&self) -> (text: &'static str)
        ensures
            text@ == self.text(),
    {
        match self {
            ExpandableDelimiter::CollapsedArray => "[...]",
            ExpandableDelimiter::CollapsedEmptyArray => "[]",
            ExpandableDelimiter::OpeningArray => "[",
            ExpandableDelimiter::ClosingArray => "]",
            ExpandableDelimiter::CollapsedObject => "{...}",
            ExpandableDelimiter::CollapsedEmptyObject => "{}",
            ExpandableDelimiter::OpeningObject => "{",
            ExpandableDelimiter::ClosingObject => "}",
        }
    }
}

impl SpacingDelimiter {
    /// The text of the marker.
    pub open spec fn text(self) -> Seq<char> {
        match self {
            SpacingDelimiter::Empty => ""@,
            SpacingDelimiter::Comma => ", "@,
            SpacingDelimiter::Colon => ": "@,
        }
    }

    /// The text to draw for the marker.
    pub fn as_str(&self) -> (text: &'static str)
        ensures
            text@ == self.text(),
    {
        match self {
            SpacingDelimiter::Empty => "",
            SpacingDelimiter::Comma => ", ",
            SpacingDelimiter::Colon => ": ",
        }
    }
}

} // verus!
