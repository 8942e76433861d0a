//! The render calls of a walk read like bracketed notation: every opening
//! marker is closed by the closing marker of the same node, and commas stand
//! between entries only.

use vstd::prelude::*;
use crate::delimiters::collapsed_of;
use crate::delimiters::delimiters_of;
use crate::delimiters::SpacingDelimiter;
use crate::model::comma_unless_last;
use crate::model::entries_events;
use crate::model::label_events;
use crate::model::entry_label;
use crate::model::label_of;
use crate::model::marker;
use crate::model::node_events;
use crate::model::spacing;
use crate::model::summary_entry_events;
use crate::model::summary_events;
use crate::model::Entries;
use crate::model::Frame;
use crate::pointer::NodeKey;
use crate::pointer::Segment;
use crate::render::Event;
use crate::value::ExpandableType;
use crate::value::JsonTreeValue;

verus! {

/// A node that was opened and is not closed yet.
pub struct Bracket {
    pub kind: ExpandableType,
    pub pointer: Seq<Segment>,
}

/// The nodes that stand open after one more call, innermost last; `None`
/// once a closing marker has come that does not close the innermost open
/// node.
pub open spec fn bracket_step(stack: Option<Seq<Bracket>>, event: Event) -> Option<Seq<Bracket>> {
    match stack {
        None => None,
        Some(open) => match event {
            Event::ExpandableDelimiter { delimiter, pointer, .. } => {
                let bracket = Bracket { kind: delimiter.kind(), pointer };
                if delimiter.is_opening() {
                    Some(open.push(bracket))
                } else if delimiter.is_closing() {
                    if open.len() > 0 && open.last() == bracket {
                        Some(open.drop_last())
                    } else {
                        None
                    }
                } else {
                    Some(open)
                }
            },
            _ => Some(open),
        },
    }
}

/// The nodes that stand open after the calls, starting from `stack`.
pub open spec fn brackets_after(events: Seq<Event>, stack: Option<Seq<Bracket>>) -> Option<
    Seq<Bracket>,
>
    decreases events.len(),
{
    if events.len() == 0 {
        stack
    } else {
        bracket_step(brackets_after(events.drop_last(), stack), events.last())
    }
}

/// Every opening marker is followed by the closing marker of the same node,
/// with well-bracketed calls in between, and no closing marker comes
/// unopened.
pub open spec fn well_bracketed(events: Seq<Event>) -> bool {
    brackets_after(events, Some(Seq::empty())) == Some(Seq::<Bracket>::empty())
}

/// Whether the call is a comma.
pub open spec fn is_comma(event: Event) -> bool {
    event == (Event::SpacingDelimiter { delimiter: SpacingDelimiter::Comma })
}

/// Whether an entry can begin with the call: a label, a value, or a marker
/// that does not close.
pub open spec fn starts_entry(event: Event) -> bool {
    match event {
        Event::Property { .. } => true,
        Event::Value { .. } => true,
        Event::ExpandableDelimiter { delimiter, .. } => !delimiter.is_closing(),
        Event::SpacingDelimiter { .. } => false,
    }
}

/// Whether an entry can end with the call: a value, or a marker that does
/// not open.
pub open spec fn ends_entry(event: Event) -> bool {
    match event {
        Event::Property { .. } => false,
        Event::Value { .. } => true,
        Event::ExpandableDelimiter { delimiter, .. } => !delimiter.is_opening(),
        Event::SpacingDelimiter { .. } => false,
    }
}

/// Every comma comes directly after the end of an entry and directly before
/// the beginning of another. Only where `trailing` is set may the last
/// call be a comma that nothing follows yet.
pub open spec fn commas_placed(events: Seq<Event>, trailing: bool) -> bool {
    forall|i: int|
        0 <= i < events.len() && is_comma(#[trigger] events[i]) ==> {
            &&& i > 0
            &&& ends_entry(events[i - 1])
            &&& i + 1 < events.len() ==> starts_entry(events[i + 1])
            &&& i + 1 == events.len() ==> trailing
        }
}

/// Commas stand strictly between entries: never before the first, never
/// after the last.
pub open spec fn commas_between_entries(events: Seq<Event>) -> bool {
    commas_placed(events, false)
}

/// The number of commas among the calls.
pub open spec fn count_commas(events: Seq<Event>) -> nat
    decreases events.len(),
{
    if events.len() == 0 {
        0
    } else {
        count_commas(events.drop_last()) + if is_comma(events.last()) {
            1nat
        } else {
            0nat
        }
    }
}

/// The number of commas that separate `n` entries.
pub open spec fn separators(n: nat) -> nat {
    if n == 0 {
        0
    } else {
        (n - 1) as nat
    }
}

/// The number of commas inside the first `n` entries of an open node.
pub open spec fn commas_inside(
    entries: Entries,
    kind: ExpandableType,
    path: Seq<Segment>,
    frame: Frame,
    n: nat,
) -> nat
    decreases n,
{
    if n == 0 || n > entries.len() {
        0
    } else {
        commas_inside(entries, kind, path, frame, (n - 1) as nat) + count_commas(
            node_events(
                entries[n - 1].1,
                entry_label(kind, entries[n - 1]),
                path.push(entries[n - 1].0@),
                frame,
            ),
        )
    }
}

proof fn lemma_brackets_concat(a: Seq<Event>, b: Seq<Event>, stack: Option<Seq<Bracket>>)
    ensures
        brackets_after(a + b, stack) == brackets_after(b, brackets_after(a, stack)),
    decreases b.len(),
{
    if b.len() == 0 {
        assert(a + b =~= a);
    } else {
        lemma_brackets_concat(a, b.drop_last(), stack);
        assert((a + b).drop_last() =~= a + b.drop_last());
    }
}

proof fn lemma_brackets_push(a: Seq<Event>, event: Event, stack: Option<Seq<Bracket>>)
    ensures
        brackets_after(a.push(event), stack) == bracket_step(brackets_after(a, stack), event),
{
    assert(a.push(event).drop_last() =~= a);
}

proof fn lemma_brackets_label(
    label: Option<Segment>,
    pointer: Seq<Segment>,
    collapsing_state: Option<NodeKey>,
    stack: Seq<Bracket>,
)
    ensures
        brackets_after(label_events(label, pointer, collapsing_state), Some(stack)) == Some(stack),
{
    let events = label_events(label, pointer, collapsing_state);
    if events.len() > 0 {
        let none = Seq::<Event>::empty();
        lemma_brackets_push(none, events[0], Some(stack));
        lemma_brackets_push(none.push(events[0]), events[1], Some(stack));
        assert(events =~= none.push(events[0]).push(events[1]));
    }
}

proof fn lemma_brackets_summary(
    entries: Entries,
    kind: ExpandableType,
    root: NodeKey,
    n: nat,
    stack: Seq<Bracket>,
)
    ensures
        brackets_after(summary_events(entries, kind, root, n), Some(stack)) == Some(stack),
    decreases n,
{
    if n == 0 || n > entries.len() {
    } else {
        let before = summary_events(entries, kind, root, (n - 1) as nat);
        let entry = entries[n - 1];
        let pointer = root.path.push(entry.0@);
        let label = label_events(label_of(kind, entry.0@), pointer, Some(root));
        let one = summary_entry_events(entry, kind, root, n == entries.len());
        lemma_brackets_summary(entries, kind, root, (n - 1) as nat, stack);
        lemma_brackets_label(label_of(kind, entry.0@), pointer, Some(root), stack);
        lemma_brackets_push(label, one[label.len() as int], Some(stack));
        lemma_brackets_push(label.push(one[label.len() as int]), one.last(), Some(stack));
        assert(one =~= label.push(one[label.len() as int]).push(one.last()));
        lemma_brackets_concat(before, one, Some(stack));
    }
}

/// Whatever stands open before the calls for a node stands open after
/// them, and nothing else: the calls for a node are well bracketed.
pub proof fn lemma_node_events_balanced(
    value: JsonTreeValue,
    label: Option<Segment>,
    path: Seq<Segment>,
    frame: Frame,
    stack: Seq<Bracket>,
)
    ensures
        brackets_after(node_events(value, label, path, frame), Some(stack)) == Some(stack),
    decreases value, 0nat,
{
    match value {
        JsonTreeValue::Base(display_value, value_type) => {
            lemma_brackets_label(label, path, None, stack);
            lemma_brackets_push(
                label_events(label, path, None),
                Event::Value { display_value: display_value@, value_type, pointer: path },
                Some(stack),
            );
        },
        JsonTreeValue::Expandable(entries, kind) => {
            let key = NodeKey { tree: frame.tree, path };
            let marks = delimiters_of(kind);
            let opening = marker(marks.opening, key);
            let closing = marker(marks.closing, key);
            let inside = stack.push(Bracket { kind, pointer: path });
            assert(inside.drop_last() =~= stack);
            let open = frame.open.contains(key);
            if path.len() == 0 && !open {
                if frame.abbreviate_root {
                    lemma_brackets_push(
                        Seq::empty(),
                        marker(marks.collapsed, key),
                        Some(stack),
                    );
                    assert(seq![marker(marks.collapsed, key)] =~= Seq::<
                        Event,
                    >::empty().push(marker(marks.collapsed, key)));
                } else {
                    let empty = spacing(SpacingDelimiter::Empty);
                    let head = seq![opening, empty];
                    let summary = summary_events(entries@, kind, key, entries@.len());
                    lemma_brackets_push(Seq::empty(), opening, Some(stack));
                    lemma_brackets_push(Seq::<Event>::empty().push(opening), empty, Some(stack));
                    assert(head =~= Seq::<Event>::empty().push(opening).push(empty));
                    lemma_brackets_summary(entries@, kind, key, entries@.len(), inside);
                    lemma_brackets_push(summary, closing, Some(inside));
                    lemma_brackets_concat(head, summary.push(closing), Some(stack));
                }
            } else if open {
                let head = label_events(label, path, Some(key));
                let body = entries_events(entries@, kind, path, frame, entries@.len());
                lemma_brackets_label(label, path, Some(key), stack);
                lemma_brackets_push(head, opening, Some(stack));
                lemma_entries_events_balanced(entries@, kind, path, frame, entries@.len(), inside);
                lemma_brackets_push(body, closing, Some(inside));
                lemma_brackets_concat(head.push(opening), body.push(closing), Some(stack));
            } else {
                lemma_brackets_label(label, path, Some(key), stack);
                lemma_brackets_push(
                    label_events(label, path, Some(key)),
                    marker(
                        collapsed_of(kind, entries@.len()),
                        key,
                    ),
                    Some(stack),
                );
            }
        },
    }
}

/// The calls for the entries of an open node are well bracketed.
pub proof fn lemma_entries_events_balanced(
    entries: Entries,
    kind: ExpandableType,
    path: Seq<Segment>,
    frame: Frame,
    n: nat,
    stack: Seq<Bracket>,
)
    ensures
        brackets_after(entries_events(entries, kind, path, frame, n), Some(stack)) == Some(stack),
    decreases entries, n,
{
    if n == 0 || n > entries.len() {
    } else {
        let before = entries_events(entries, kind, path, frame, (n - 1) as nat);
        let child = node_events(
            entries[n - 1].1,
            entry_label(kind, entries[n - 1]),
            path.push(entries[n - 1].0@),
            frame,
        );
        let comma = comma_unless_last(entries, n);
        lemma_entries_events_balanced(entries, kind, path, frame, (n - 1) as nat, stack);
        lemma_node_events_balanced(
            entries[n - 1].1,
            entry_label(kind, entries[n - 1]),
            path.push(entries[n - 1].0@),
            frame,
            stack,
        );
        lemma_brackets_concat(before, child, Some(stack));
        lemma_brackets_concat(before + child, comma, Some(stack));
        if comma.len() > 0 {
            lemma_brackets_push(Seq::empty(), comma[0], Some(stack));
            assert(comma =~= Seq::<Event>::empty().push(comma[0]));
        }
    }
}

proof fn lemma_commas_concat(a: Seq<Event>, trailing_a: bool, b: Seq<Event>, trailing_b: bool)
    requires
        commas_placed(a, trailing_a),
        commas_placed(b, trailing_b),
        b.len() > 0,
        trailing_a ==> starts_entry(b[0]),
    ensures
        commas_placed(a + b, trailing_b),
{
    let all = a + b;
    assert forall|i: int| 0 <= i < all.len() && is_comma(#[trigger] all[i]) implies {
        &&& i > 0
        &&& ends_entry(all[i - 1])
        &&& i + 1 < all.len() ==> starts_entry(all[i + 1])
        &&& i + 1 == all.len() ==> trailing_b
    } by {
        if i < a.len() {
            assert(is_comma(a[i]));
            assert(all[i - 1] == a[i - 1]);
            if i + 1 < a.len() {
                assert(all[i + 1] == a[i + 1]);
            } else {
                assert(all[i + 1] == b[0]);
            }
        } else {
            let j = i - a.len();
            assert(is_comma(b[j]));
            assert(all[i - 1] == b[j - 1]);
            if j + 1 < b.len() {
                assert(all[i + 1] == b[j + 1]);
            }
        }
    }
}

proof fn lemma_commas_summary(entries: Entries, kind: ExpandableType, root: NodeKey, n: nat)
    requires
        n <= entries.len(),
    ensures
        commas_placed(summary_events(entries, kind, root, n), n < entries.len()),
        n > 0 ==> summary_events(entries, kind, root, n).len() > 0 && starts_entry(
            summary_events(entries, kind, root, n)[0],
        ),
        n > 0 && n == entries.len() ==> !is_comma(summary_events(entries, kind, root, n).last()),
    decreases n,
{
    if n > 0 {
        let before = summary_events(entries, kind, root, (n - 1) as nat);
        let one = summary_entry_events(entries[n - 1], kind, root, n == entries.len());
        lemma_commas_summary(entries, kind, root, (n - 1) as nat);
        assert(commas_placed(one, n < entries.len()));
        assert(starts_entry(one[0]));
        lemma_commas_concat(before, n - 1 < entries.len(), one, n < entries.len());
        if n == 1 {
            assert(before + one =~= one);
        } else {
            assert((before + one)[0] == before[0]);
        }
    }
}

/// The calls for a node begin as an entry begins and end as an entry ends.
pub proof fn lemma_node_events_shape(
    value: JsonTreeValue,
    label: Option<Segment>,
    path: Seq<Segment>,
    frame: Frame,
)
    ensures
        node_events(value, label, path, frame).len() > 0,
        starts_entry(node_events(value, label, path, frame)[0]),
        ends_entry(node_events(value, label, path, frame).last()),
{
}

/// In the calls for a node, commas stand strictly between entries.
pub proof fn lemma_node_commas_between_entries(
    value: JsonTreeValue,
    label: Option<Segment>,
    path: Seq<Segment>,
    frame: Frame,
)
    ensures
        commas_between_entries(node_events(value, label, path, frame)),
    decreases value, 0nat,
{
    match value {
        JsonTreeValue::Base(_, _) => {},
        JsonTreeValue::Expandable(entries, kind) => {
            let key = NodeKey { tree: frame.tree, path };
            let marks = delimiters_of(kind);
            let opening = marker(marks.opening, key);
            let closing = marker(marks.closing, key);
            let open = frame.open.contains(key);
            if path.len() == 0 && !open {
                if !frame.abbreviate_root {
                    let head = seq![opening, spacing(SpacingDelimiter::Empty)];
                    let summary = summary_events(entries@, kind, key, entries@.len());
                    lemma_commas_summary(entries@, kind, key, entries@.len());
                    lemma_commas_concat(summary, false, seq![closing], false);
                    assert(summary + seq![closing] =~= summary.push(closing));
                    lemma_commas_concat(head, false, summary.push(closing), false);
                }
            } else if open {
                let head = label_events(label, path, Some(key)).push(opening);
                let body = entries_events(entries@, kind, path, frame, entries@.len());
                lemma_entries_commas(entries@, kind, path, frame, entries@.len());
                lemma_commas_concat(body, false, seq![closing], false);
                assert(body + seq![closing] =~= body.push(closing));
                lemma_commas_concat(head, false, body.push(closing), false);
            }
        },
    }
}

/// In the calls for the first `n` entries of an open node, commas stand
/// between entries; only while entries are still to come may the last call
/// be a comma. The calls begin as an entry begins.
pub proof fn lemma_entries_commas(
    entries: Entries,
    kind: ExpandableType,
    path: Seq<Segment>,
    frame: Frame,
    n: nat,
)
    requires
        n <= entries.len(),
    ensures
        commas_placed(entries_events(entries, kind, path, frame, n), n < entries.len()),
        n > 0 ==> entries_events(entries, kind, path, frame, n).len() > 0 && starts_entry(
            entries_events(entries, kind, path, frame, n)[0],
        ),
    decreases entries, n,
{
    if n > 0 {
        let before = entries_events(entries, kind, path, frame, (n - 1) as nat);
        let child = node_events(
            entries[n - 1].1,
            entry_label(kind, entries[n - 1]),
            path.push(entries[n - 1].0@),
            frame,
        );
        let comma = comma_unless_last(entries, n);
        lemma_entries_commas(entries, kind, path, frame, (n - 1) as nat);
        lemma_node_commas_between_entries(
            entries[n - 1].1,
            entry_label(kind, entries[n - 1]),
            path.push(entries[n - 1].0@),
            frame,
        );
        lemma_node_events_shape(
            entries[n - 1].1,
            entry_label(kind, entries[n - 1]),
            path.push(entries[n - 1].0@),
            frame,
        );
        lemma_commas_concat(before, n - 1 < entries.len(), child, false);
        if n == 1 {
            assert(before + child =~= child);
        } else {
            assert((before + child)[0] == before[0]);
        }
        if n < entries.len() {
            let so_far = before + child;
            assert(so_far.last() == child.last());
            assert(commas_placed(so_far + comma, true)) by {
                let all = so_far + comma;
                assert forall|i: int| 0 <= i < all.len() && is_comma(#[trigger] all[i]) implies {
                    &&& i > 0
                    &&& ends_entry(all[i - 1])
                    &&& i + 1 < all.len() ==> starts_entry(all[i + 1])
                } by {
                    if i < so_far.len() {
                        assert(is_comma(so_far[i]));
                        assert(all[i - 1] == so_far[i - 1]);
                        assert(i + 1 < so_far.len());
                        assert(all[i + 1] == so_far[i + 1]);
                    } else {
                        assert(all[i - 1] == so_far.last());
                    }
                }
            }
            assert((so_far + comma)[0] == so_far[0]);
        } else {
            assert(before + child + comma =~= before + child);
        }
    }
}

/// In the calls of a whole pass, commas stand strictly between entries:
/// none before the first entry of a node, none after its last.
pub proof fn lemma_pass_commas_between_entries(value: JsonTreeValue, frame: Frame)
    ensures
        commas_between_entries(node_events(value, None, Seq::empty(), frame)),
{
    lemma_node_commas_between_entries(value, None, Seq::empty(), frame);
}

proof fn lemma_count_concat(a: Seq<Event>, b: Seq<Event>)
    ensures
        count_commas(a + b) == count_commas(a) + count_commas(b),
    decreases b.len(),
{
    if b.len() == 0 {
        assert(a + b =~= a);
    } else {
        lemma_count_concat(a, b.drop_last());
        assert((a + b).drop_last() =~= a + b.drop_last());
    }
}

proof fn lemma_count_push(a: Seq<Event>, event: Event)
    ensures
        count_commas(a.push(event)) == count_commas(a) + if is_comma(event) {
            1nat
        } else {
            0nat
        },
{
    assert(a.push(event).drop_last() =~= a);
}

proof fn lemma_count_label(
    label: Option<Segment>,
    pointer: Seq<Segment>,
    collapsing_state: Option<NodeKey>,
)
    ensures
        count_commas(label_events(label, pointer, collapsing_state)) == 0,
{
    let events = label_events(label, pointer, collapsing_state);
    if events.len() > 0 {
        let none = Seq::<Event>::empty();
        lemma_count_push(none, events[0]);
        lemma_count_push(none.push(events[0]), events[1]);
        assert(events =~= none.push(events[0]).push(events[1]));
    }
}

proof fn lemma_count_summary(entries: Entries, kind: ExpandableType, root: NodeKey, n: nat)
    requires
        n <= entries.len(),
    ensures
        count_commas(summary_events(entries, kind, root, n)) == if n < entries.len() {
            n
        } else {
            separators(n)
        },
    decreases n,
{
    if n > 0 {
        let before = summary_events(entries, kind, root, (n - 1) as nat);
        let entry = entries[n - 1];
        let pointer = root.path.push(entry.0@);
        let label = label_events(label_of(kind, entry.0@), pointer, Some(root));
        let one = summary_entry_events(entry, kind, root, n == entries.len());
        lemma_count_summary(entries, kind, root, (n - 1) as nat);
        lemma_count_label(label_of(kind, entry.0@), pointer, Some(root));
        lemma_count_push(label, one[label.len() as int]);
        lemma_count_push(label.push(one[label.len() as int]), one.last());
        assert(one =~= label.push(one[label.len() as int]).push(one.last()));
        lemma_count_concat(before, one);
    }
}

proof fn lemma_count_entries(
    entries: Entries,
    kind: ExpandableType,
    path: Seq<Segment>,
    frame: Frame,
    n: nat,
)
    requires
        n <= entries.len(),
    ensures
        count_commas(entries_events(entries, kind, path, frame, n)) == commas_inside(
            entries,
            kind,
            path,
            frame,
            n,
        ) + if n < entries.len() {
            n
        } else {
            separators(n)
        },
    decreases n,
{
    if n > 0 {
        let before = entries_events(entries, kind, path, frame, (n - 1) as nat);
        let child = node_events(
            entries[n - 1].1,
            entry_label(kind, entries[n - 1]),
            path.push(entries[n - 1].0@),
            frame,
        );
        let comma = comma_unless_last(entries, n);
        lemma_count_entries(entries, kind, path, frame, (n - 1) as nat);
        lemma_count_concat(before, child);
        lemma_count_concat(before + child, comma);
        if comma.len() > 0 {
            lemma_count_push(Seq::empty(), comma[0]);
            assert(comma =~= Seq::<Event>::empty().push(comma[0]));
        }
    }
}

/// The calls for an open node with `N` entries hold exactly `N - 1` commas
/// of the node's own, which separate its entries; every other comma among
/// them lies inside one of the entries. A node without entries has none.
pub proof fn lemma_open_node_separates_its_entries(
    value: JsonTreeValue,
    label: Option<Segment>,
    path: Seq<Segment>,
    frame: Frame,
)
    requires
        value is Expandable,
        frame.open.contains(NodeKey { tree: frame.tree, path }),
    ensures
        value matches JsonTreeValue::Expandable(entries, kind) ==> count_commas(
            node_events(value, label, path, frame),
        ) == separators(entries@.len()) + commas_inside(entries@, kind, path, frame, entries@.len()),
{
    match value {
        JsonTreeValue::Expandable(entries, kind) => {
            let key = NodeKey { tree: frame.tree, path };
            let marks = delimiters_of(kind);
            let opening = marker(marks.opening, key);
            let closing = marker(marks.closing, key);
            let head = label_events(label, path, Some(key));
            let body = entries_events(entries@, kind, path, frame, entries@.len());
            lemma_count_label(label, path, Some(key));
            lemma_count_push(head, opening);
            lemma_count_entries(entries@, kind, path, frame, entries@.len());
            lemma_count_push(body, closing);
            lemma_count_concat(head.push(opening), body.push(closing));
        },
        JsonTreeValue::Base(_, _) => {},
    }
}

/// The one line of a closed root with `N` entries holds exactly `N - 1`
/// commas, and none if it has no entries.
pub proof fn lemma_closed_root_separates_its_entries(value: JsonTreeValue, frame: Frame)
    requires
        value is Expandable,
        !frame.abbreviate_root,
        !frame.open.contains(NodeKey { tree: frame.tree, path: Seq::empty() }),
    ensures
        value matches JsonTreeValue::Expandable(entries, kind) ==> count_commas(
            node_events(value, None, Seq::empty(), frame),
        ) == separators(entries@.len()),
{
    match value {
        JsonTreeValue::Expandable(entries, kind) => {
            let key = NodeKey { tree: frame.tree, path: Seq::empty() };
            let marks = delimiters_of(kind);
            let opening = marker(marks.opening, key);
            let closing = marker(marks.closing, key);
            let empty = spacing(SpacingDelimiter::Empty);
            let head = seq![opening, empty];
            let summary = summary_events(entries@, kind, key, entries@.len());
            lemma_count_push(Seq::empty(), opening);
            lemma_count_push(Seq::<Event>::empty().push(opening), empty);
            assert(head =~= Seq::<Event>::empty().push(opening).push(empty));
            lemma_count_summary(entries@, kind, key, entries@.len());
            lemma_count_push(summary, closing);
            lemma_count_concat(head, summary.push(closing));
        },
        JsonTreeValue::Base(_, _) => {},
    }
}

/// The calls of a whole pass are well bracketed.
pub proof fn lemma_pass_is_well_bracketed(value: JsonTreeValue, frame: Frame)
    ensures
        well_bracketed(node_events(value, None, Seq::empty(), frame)),
{
    lemma_node_events_balanced(value, None, Seq::empty(), frame, Seq::empty());
}

} // verus!
