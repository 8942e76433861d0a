//! What a walk of a tree produces, stated as mathematics.
//!
//! A walk is a function of the document, of the root's flag for the short
//! form, and of the set of nodes that are open. Its result is the sequence of
//! render calls and the set of expandable nodes that it met.

use vstd::prelude::*;
use crate::delimiters::collapsed_of;
use crate::delimiters::delimiters_of;
use crate::delimiters::ExpandableDelimiter;
use crate::delimiters::SpacingDelimiter;
use crate::pointer::JsonPointerSegment;
use crate::pointer::NodeKey;
use crate::pointer::Segment;
use crate::render::Event;
use crate::value::ExpandableType;
use crate::value::JsonTreeValue;

verus! {

/// What stays the same during one walk.
pub struct Frame {
    /// The tree that is walked.
    pub tree: u64,
    /// Whether a closed root is drawn as one marker.
    pub abbreviate_root: bool,
    /// The nodes that are open.
    pub open: Set<NodeKey>,
}

/// The entries of an expandable node, each under its segment.
pub type Entries = Seq<(JsonPointerSegment, JsonTreeValue)>;

/// The label under which a closed root of the given kind shows the entry
/// under the given segment on its one line: an object labels its entries by
/// their keys, an array shows its entries without their places.
pub open spec fn label_of(kind: ExpandableType, segment: Segment) -> Option<Segment> {
    match kind {
        ExpandableType::Object => Some(segment),
        ExpandableType::Array => None,
    }
}

/// The label under which an open node of the given kind shows an entry. An
/// object labels every entry by its key. An array labels an entry by its
/// place if the entry is expandable, so that the entry has a label to be
/// opened and closed by; an atomic entry of an array stands for itself.
pub open spec fn entry_label(
    kind: ExpandableType,
    entry: (JsonPointerSegment, JsonTreeValue),
) -> Option<Segment> {
    match kind {
        ExpandableType::Object => Some(entry.0@),
        ExpandableType::Array => if entry.1 is Expandable {
            Some(entry.0@)
        } else {
            None
        },
    }
}

/// The calls for the label of a node, if it has one: the label and a colon.
pub open spec fn label_events(
    label: Option<Segment>,
    pointer: Seq<Segment>,
    collapsing_state: Option<NodeKey>,
) -> Seq<Event> {
    match label {
        Some(property) => seq![
            Event::Property { property, pointer, collapsing_state },
            Event::SpacingDelimiter { delimiter: SpacingDelimiter::Colon },
        ],
        None => Seq::empty(),
    }
}

/// The call for a marker of the node at `key`, which a click opens or closes.
pub open spec fn marker(delimiter: ExpandableDelimiter, key: NodeKey) -> Event {
    Event::ExpandableDelimiter { delimiter, pointer: key.path, collapsing_state: key }
}

/// The call for a separator.
pub open spec fn spacing(delimiter: SpacingDelimiter) -> Event {
    Event::SpacingDelimiter { delimiter }
}

/// The calls for one entry of a closed root that is drawn on one line: its
/// label if the root is an object, then the value if it is atomic or else
/// one marker for all of it, then a comma unless the entry is the last. A
/// click on any of it opens the root.
pub open spec fn summary_entry_events(
    entry: (JsonPointerSegment, JsonTreeValue),
    kind: ExpandableType,
    root: NodeKey,
    last: bool,
) -> Seq<Event> {
    let pointer = root.path.push(entry.0@);
    label_events(label_of(kind, entry.0@), pointer, Some(root)).push(
        match entry.1 {
            JsonTreeValue::Base(display_value, value_type) => Event::Value {
                display_value: display_value@,
                value_type,
                pointer,
            },
            JsonTreeValue::Expandable(inner, inner_kind) => Event::ExpandableDelimiter {
                delimiter: collapsed_of(inner_kind, inner@.len()),
                pointer,
                collapsing_state: root,
            },
        },
    ).push(
        spacing(
            if last {
                SpacingDelimiter::Empty
            } else {
                SpacingDelimiter::Comma
            },
        ),
    )
}

/// The calls for the first `n` entries of a closed root that is drawn on one
/// line.
pub open spec fn summary_events(entries: Entries, kind: ExpandableType, root: NodeKey, n: nat) -> Seq<
    Event,
>
    decreases n,
{
    if n == 0 || n > entries.len() {
        Seq::empty()
    } else {
        summary_events(entries, kind, root, (n - 1) as nat) + summary_entry_events(
            entries[n - 1],
            kind,
            root,
            n == entries.len(),
        )
    }
}

/// The calls for the node `value` that stands at `path` and carries `label`.
///
/// An atomic node gives its label and its value. A closed root gives one
/// marker in the short form, and else its entries on one line between its
/// opening and closing markers. Any other expandable node gives its label
/// and then, if it is open, its entries in full between its opening and
/// closing markers, and if it is closed, one marker.
pub open spec fn node_events(
    value: JsonTreeValue,
    label: Option<Segment>,
    path: Seq<Segment>,
    frame: Frame,
) -> Seq<Event>
    decreases value, 0nat,
{
    match value {
        JsonTreeValue::Base(display_value, value_type) => label_events(label, path, None).push(
            Event::Value { display_value: display_value@, value_type, pointer: path },
        ),
        JsonTreeValue::Expandable(entries, kind) => {
            let key = NodeKey { tree: frame.tree, path };
            let open = frame.open.contains(key);
            if path.len() == 0 && !open {
                if frame.abbreviate_root {
                    seq![marker(delimiters_of(kind).collapsed, key)]
                } else {
                    seq![marker(delimiters_of(kind).opening, key), spacing(SpacingDelimiter::Empty)]
                        + summary_events(entries@, kind, key, entries@.len()).push(
                        marker(delimiters_of(kind).closing, key),
                    )
                }
            } else if open {
                label_events(label, path, Some(key)).push(marker(delimiters_of(kind).opening, key))
                    + entries_events(entries@, kind, path, frame, entries@.len()).push(
                    marker(delimiters_of(kind).closing, key),
                )
            } else {
                label_events(label, path, Some(key)).push(
                    marker(collapsed_of(kind, entries@.len()), key),
                )
            }
        },
    }
}

/// The calls for the first `n` entries of an open node of the given kind at
/// `path`: each entry in full, and a comma after each but the last entry of
/// the node.
pub open spec fn entries_events(
    entries: Entries,
    kind: ExpandableType,
    path: Seq<Segment>,
    frame: Frame,
    n: nat,
) -> Seq<Event>
    decreases entries, n,
{
    if n == 0 || n > entries.len() {
        Seq::empty()
    } else {
        entries_events(entries, kind, path, frame, (n - 1) as nat) + node_events(
            entries[n - 1].1,
            entry_label(kind, entries[n - 1]),
            path.push(entries[n - 1].0@),
            frame,
        ) + comma_unless_last(entries, n)
    }
}

/// A comma after the `n`-th entry, unless it is the last.
pub open spec fn comma_unless_last(entries: Entries, n: nat) -> Seq<Event> {
    if n < entries.len() {
        seq![spacing(SpacingDelimiter::Comma)]
    } else {
        Seq::empty()
    }
}

/// The expandable nodes that a walk of `value` at `path` meets: the node
/// itself and, if it is open, those that the walks of its entries meet.
/// Nothing below a closed node is met.
pub open spec fn node_visited(value: JsonTreeValue, path: Seq<Segment>, frame: Frame) -> Set<NodeKey>
    decreases value, 0nat,
{
    match value {
        JsonTreeValue::Base(_, _) => Set::empty(),
        JsonTreeValue::Expandable(entries, _) => {
            let key = NodeKey { tree: frame.tree, path };
            if frame.open.contains(key) {
                entries_visited(entries@, path, frame, entries@.len()).insert(key)
            } else {
                set![key]
            }
        },
    }
}

/// The expandable nodes that the walks of the first `n` entries meet.
pub open spec fn entries_visited(entries: Entries, path: Seq<Segment>, frame: Frame, n: nat) -> Set<
    NodeKey,
>
    decreases entries, n,
{
    if n == 0 || n > entries.len() {
        Set::empty()
    } else {
        entries_visited(entries, path, frame, (n - 1) as nat).union(
            node_visited(entries[n - 1].1, path.push(entries[n - 1].0@), frame),
        )
    }
}

} // verus!
