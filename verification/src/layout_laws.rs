//! Rows are set in by the depth of what they show.

use vstd::prelude::*;
use crate::delimiters::collapsed_of;
use crate::delimiters::delimiters_of;
use crate::delimiters::SpacingDelimiter;
use crate::laws::event_depth;
use crate::layout::closes;
use crate::layout::nesting;
use crate::layout::opens;
use crate::layout::row_depth;
use crate::model::comma_unless_last;
use crate::model::entries_events;
use crate::model::entry_label;
use crate::model::label_events;
use crate::model::label_of;
use crate::model::marker;
use crate::model::node_events;
use crate::model::spacing;
use crate::model::summary_entry_events;
use crate::model::summary_events;
use crate::model::Entries;
use crate::model::Frame;
use crate::pointer::NodeKey;
use crate::pointer::Segment;
use crate::render::Event;
use crate::value::ExpandableType;
use crate::value::JsonTreeValue;

verus! {

/// Whether no closing marker among the calls comes while nothing stands
/// open.
pub open spec fn never_dips(events: Seq<Event>) -> bool {
    forall|i: int| 0 <= i < events.len() && closes(#[trigger] events[i]) ==> nesting(events, i as nat) > 0
}

/// Whether every call that draws something is set in by as many levels as
/// the thing stands below depth `base` in the document.
pub open spec fn set_in_by_depth(events: Seq<Event>, base: nat) -> bool {
    forall|i: int|
        0 <= i < events.len() && !(#[trigger] events[i] is SpacingDelimiter) ==> event_depth(events[i])
            == base + row_depth(events, i as nat)
}

/// Whether the calls close all that they open, never close what is not open,
/// and are set in by depth, counted from `base`.
#[verifier::opaque]
pub open spec fn settled(events: Seq<Event>, base: nat) -> bool {
    &&& never_dips(events)
    &&& nesting(events, events.len()) == 0
    &&& set_in_by_depth(events, base)
}

proof fn lemma_nesting_of_front(a: Seq<Event>, b: Seq<Event>, i: nat)
    requires
        i <= a.len(),
    ensures
        nesting(a + b, i) == nesting(a, i),
    decreases i,
{
    if i > 0 {
        lemma_nesting_of_front(a, b, (i - 1) as nat);
        assert((a + b)[i - 1] == a[i - 1]);
    }
}

proof fn lemma_nesting_of_back(a: Seq<Event>, b: Seq<Event>, i: nat)
    requires
        never_dips(b),
        i <= b.len(),
    ensures
        nesting(a + b, a.len() + i) == nesting(a, a.len()) + nesting(b, i),
    decreases i,
{
    if i == 0 {
        lemma_nesting_of_front(a, b, a.len());
    } else {
        lemma_nesting_of_back(a, b, (i - 1) as nat);
        assert((a + b)[a.len() + i - 1] == b[i - 1]);
        if closes(b[i - 1]) {
            assert(nesting(b, (i - 1) as nat) > 0);
        }
    }
}

proof fn lemma_settled_concat(a: Seq<Event>, b: Seq<Event>, base: nat)
    requires
        settled(a, base),
        settled(b, base),
    ensures
        settled(a + b, base),
{
    reveal(settled);
    let all = a + b;
    lemma_nesting_of_back(a, b, b.len());
    assert forall|i: int| 0 <= i < all.len() implies (closes(#[trigger] all[i]) ==> nesting(
        all,
        i as nat,
    ) > 0) && (!(all[i] is SpacingDelimiter) ==> event_depth(all[i]) == base + row_depth(
        all,
        i as nat,
    )) by {
        if i < a.len() {
            lemma_nesting_of_front(a, b, i as nat);
            assert(all[i] == a[i]);
        } else {
            lemma_nesting_of_back(a, b, (i - a.len()) as nat);
            assert(all[i] == b[i - a.len()]);
        }
    }
}

proof fn lemma_settled_one(event: Event, base: nat)
    requires
        !opens(event),
        !closes(event),
        !(event is SpacingDelimiter) ==> event_depth(event) == base,
    ensures
        settled(seq![event], base),
{
    reveal(settled);
    let events = seq![event];
    assert(nesting(events, 0) == 0);
    assert(nesting(events, 1) == 0);
}

proof fn lemma_settled_none(base: nat)
    ensures
        settled(Seq::<Event>::empty(), base),
{
    reveal(settled);
}

proof fn lemma_settled_label(
    label: Option<Segment>,
    pointer: Seq<Segment>,
    collapsing_state: Option<NodeKey>,
)
    ensures
        settled(label_events(label, pointer, collapsing_state), pointer.len()),
{
    let events = label_events(label, pointer, collapsing_state);
    if events.len() == 0 {
        lemma_settled_none(pointer.len());
    } else {
        lemma_settled_one(events[0], pointer.len());
        lemma_settled_one(events[1], pointer.len());
        lemma_settled_concat(seq![events[0]], seq![events[1]], pointer.len());
        assert(events =~= seq![events[0]] + seq![events[1]]);
    }
}

proof fn lemma_settled_between_markers(
    opening: Event,
    body: Seq<Event>,
    closing: Event,
    base: nat,
)
    requires
        opens(opening),
        closes(closing),
        event_depth(opening) == base,
        event_depth(closing) == base,
        settled(body, base + 1),
    ensures
        settled(seq![opening] + body + seq![closing], base),
{
    reveal(settled);
    let front = seq![opening];
    let inner = front + body;
    let all = inner + seq![closing];
    assert(nesting(front, 0) == 0);
    assert(nesting(front, 1) == 1);
    lemma_nesting_of_back(front, body, body.len());
    lemma_nesting_of_front(inner, seq![closing], inner.len());
    assert(all[inner.len() as int] == closing);
    assert(nesting(all, all.len()) == 0);
    assert forall|i: int| 0 <= i < all.len() implies (closes(#[trigger] all[i]) ==> nesting(
        all,
        i as nat,
    ) > 0) && (!(all[i] is SpacingDelimiter) ==> event_depth(all[i]) == base + row_depth(
        all,
        i as nat,
    )) by {
        lemma_nesting_of_front(inner, seq![closing], i as nat);
        if i == 0 {
            lemma_nesting_of_front(front, body, 0);
            assert(all[0] == opening);
        } else if i < inner.len() {
            lemma_nesting_of_back(front, body, (i - 1) as nat);
            assert(all[i] == body[i - 1]);
        }
    }
}

proof fn lemma_summary_settled(entries: Entries, kind: ExpandableType, root: NodeKey, n: nat)
    requires
        n <= entries.len(),
    ensures
        settled(summary_events(entries, kind, root, n), root.path.len() + 1),
    decreases n,
{
    let base = root.path.len() + 1;
    if n == 0 {
        lemma_settled_none(base);
    } else {
        let before = summary_events(entries, kind, root, (n - 1) as nat);
        let entry = entries[n - 1];
        let pointer = root.path.push(entry.0@);
        let label = label_events(label_of(kind, entry.0@), pointer, Some(root));
        let one = summary_entry_events(entry, kind, root, n == entries.len());
        lemma_summary_settled(entries, kind, root, (n - 1) as nat);
        lemma_settled_label(label_of(kind, entry.0@), pointer, Some(root));
        lemma_settled_one(one[label.len() as int], base);
        lemma_settled_one(one.last(), base);
        lemma_settled_concat(label, seq![one[label.len() as int]], base);
        lemma_settled_concat(label + seq![one[label.len() as int]], seq![one.last()], base);
        assert(one =~= label + seq![one[label.len() as int]] + seq![one.last()]);
        lemma_settled_concat(before, one, base);
    }
}

proof fn lemma_entries_settled(
    entries: Entries,
    kind: ExpandableType,
    path: Seq<Segment>,
    frame: Frame,
    n: nat,
)
    requires
        n <= entries.len(),
    ensures
        settled(entries_events(entries, kind, path, frame, n), path.len() + 1),
    decreases entries, n,
{
    let base = path.len() + 1;
    if n == 0 {
        lemma_settled_none(base);
    } else {
        let before = entries_events(entries, kind, path, frame, (n - 1) as nat);
        let child = node_events(
            entries[n - 1].1,
            entry_label(kind, entries[n - 1]),
            path.push(entries[n - 1].0@),
            frame,
        );
        let comma = comma_unless_last(entries, n);
        lemma_entries_settled(entries, kind, path, frame, (n - 1) as nat);
        lemma_node_settled(
            entries[n - 1].1,
            entry_label(kind, entries[n - 1]),
            path.push(entries[n - 1].0@),
            frame,
        );
        lemma_settled_concat(before, child, base);
        if comma.len() > 0 {
            lemma_settled_one(comma[0], base);
            assert(comma =~= seq![comma[0]]);
        } else {
            lemma_settled_none(base);
        }
        lemma_settled_concat(before + child, comma, base);
    }
}

/// The calls for a node close all that they open and are set in by depth,
/// counted from the depth of the node.
pub proof fn lemma_node_settled(
    value: JsonTreeValue,
    label: Option<Segment>,
    path: Seq<Segment>,
    frame: Frame,
)
    ensures
        settled(node_events(value, label, path, frame), path.len()),
    decreases value, 0nat,
{
    let base = path.len();
    let events = node_events(value, label, path, frame);
    match value {
        JsonTreeValue::Base(display_value, value_type) => {
            let shown = Event::Value { display_value: display_value@, value_type, pointer: path };
            lemma_settled_label(label, path, None);
            lemma_settled_one(shown, base);
            lemma_settled_concat(label_events(label, path, None), seq![shown], base);
            assert(events =~= label_events(label, path, None) + seq![shown]);
        },
        JsonTreeValue::Expandable(entries, kind) => {
            let key = NodeKey { tree: frame.tree, path };
            let opening = marker(delimiters_of(kind).opening, key);
            let closing = marker(delimiters_of(kind).closing, key);
            let open = frame.open.contains(key);
            if path.len() == 0 && !open {
                if frame.abbreviate_root {
                    lemma_settled_one(marker(delimiters_of(kind).collapsed, key), base);
                } else {
                    let empty = spacing(SpacingDelimiter::Empty);
                    let summary = summary_events(entries@, kind, key, entries@.len());
                    lemma_settled_one(empty, 1);
                    lemma_summary_settled(entries@, kind, key, entries@.len());
                    lemma_settled_concat(seq![empty], summary, 1);
                    lemma_settled_between_markers(opening, seq![empty] + summary, closing, base);
                    assert(events =~= seq![opening] + (seq![empty] + summary) + seq![closing]);
                }
            } else if open {
                let head = label_events(label, path, Some(key));
                let body = entries_events(entries@, kind, path, frame, entries@.len());
                lemma_settled_label(label, path, Some(key));
                lemma_entries_settled(entries@, kind, path, frame, entries@.len());
                lemma_settled_between_markers(opening, body, closing, base);
                lemma_settled_concat(head, seq![opening] + body + seq![closing], base);
                assert(events =~= head + (seq![opening] + body + seq![closing]));
            } else {
                let closed = marker(collapsed_of(kind, entries@.len()), key);
                lemma_settled_label(label, path, Some(key));
                lemma_settled_one(closed, base);
                lemma_settled_concat(label_events(label, path, Some(key)), seq![closed], base);
                assert(events =~= label_events(label, path, Some(key)) + seq![closed]);
            }
        },
    }
}

/// In the calls of a whole pass, every call that draws something is set in
/// by as many levels as the thing stands deep in the document: a row that
/// begins with the call is set in by the depth of what it shows.
pub proof fn lemma_rows_are_set_in_by_depth(value: JsonTreeValue, frame: Frame)
    ensures
        forall|i: int|
            0 <= i < node_events(value, None, Seq::empty(), frame).len() && !(#[trigger] node_events(
                value,
                None,
                Seq::empty(),
                frame,
            )[i] is SpacingDelimiter) ==> row_depth(
                node_events(value, None, Seq::empty(), frame),
                i as nat,
            ) == event_depth(node_events(value, None, Seq::empty(), frame)[i]),
{
    reveal(settled);
    lemma_node_settled(value, None, Seq::empty(), frame);
}

} // verus!
