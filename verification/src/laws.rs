//! What holds of every walk, proved from the model.

use vstd::prelude::*;
use crate::expand::lemma_seeding_keeps_open_nodes;
use crate::expand::open_nodes;
use crate::expand::seeded;
use crate::expand::Policy;
use crate::model::entries_events;
use crate::model::entries_visited;
use crate::model::entry_label;
use crate::model::node_events;
use crate::model::node_visited;
use crate::model::summary_entry_events;
use crate::model::summary_events;
use crate::model::Entries;
use crate::model::Frame;
use crate::pointer::JsonPointerSegment;
use crate::pointer::NodeKey;
use crate::pointer::Segment;
use crate::render::Event;
use crate::value::ExpandableType;
use crate::value::JsonTreeValue;

verus! {

/// The identity of the root of a tree.
pub open spec fn root_key(tree: u64) -> NodeKey {
    NodeKey { tree, path: Seq::empty() }
}

/// How deep in the document the thing that a call draws stands. A separator
/// stands nowhere and counts as depth 0.
pub open spec fn event_depth(event: Event) -> nat {
    match event {
        Event::Property { pointer, .. } => pointer.len(),
        Event::Value { pointer, .. } => pointer.len(),
        Event::ExpandableDelimiter { pointer, .. } => pointer.len(),
        Event::SpacingDelimiter { .. } => 0,
    }
}

/// Whether the place `pointer` is the node at `path` or lies below it.
pub open spec fn at_or_below(pointer: Seq<Segment>, path: Seq<Segment>) -> bool {
    path.len() <= pointer.len() && pointer.take(path.len() as int) == path
}

/// Whether the call draws something of the node at `path` or of a node
/// below it. A separator belongs wherever it stands.
pub open spec fn drawn_below(event: Event, path: Seq<Segment>) -> bool {
    match event {
        Event::Property { pointer, .. } => at_or_below(pointer, path),
        Event::Value { pointer, .. } => at_or_below(pointer, path),
        Event::ExpandableDelimiter { pointer, .. } => at_or_below(pointer, path),
        Event::SpacingDelimiter { .. } => true,
    }
}

/// Whether every one of the calls draws something at or below `path`.
pub open spec fn all_drawn_below(events: Seq<Event>, path: Seq<Segment>) -> bool {
    forall|i: int| 0 <= i < events.len() ==> drawn_below(#[trigger] events[i], path)
}

proof fn lemma_below_entry_is_below_node(events: Seq<Event>, path: Seq<Segment>, step: Segment)
    requires
        all_drawn_below(events, path.push(step)),
    ensures
        all_drawn_below(events, path),
{
    assert forall|i: int| 0 <= i < events.len() implies drawn_below(#[trigger] events[i], path) by {
        let longer = path.push(step);
        assert(drawn_below(events[i], longer));
        assert forall|pointer: Seq<Segment>| at_or_below(pointer, longer) implies at_or_below(
            pointer,
            path,
        ) by {
            assert(pointer.take(path.len() as int) =~= pointer.take(longer.len() as int).take(
                path.len() as int,
            ));
            assert(longer.take(path.len() as int) =~= path);
        }
    }
}

proof fn lemma_entries_drawn_below(
    entries: Entries,
    kind: ExpandableType,
    path: Seq<Segment>,
    frame: Frame,
    n: nat,
)
    ensures
        all_drawn_below(entries_events(entries, kind, path, frame, n), path),
    decreases entries, n,
{
    if n == 0 || n > entries.len() {
    } else {
        let step = entries[n - 1].0@;
        let child = node_events(
            entries[n - 1].1,
            entry_label(kind, entries[n - 1]),
            path.push(step),
            frame,
        );
        lemma_entries_drawn_below(entries, kind, path, frame, (n - 1) as nat);
        lemma_calls_stay_with_their_node(
            entries[n - 1].1,
            entry_label(kind, entries[n - 1]),
            path.push(step),
            frame,
        );
        lemma_below_entry_is_below_node(child, path, step);
    }
}

/// The path of a walk is in step with its recursion: every call that is
/// made for a node draws something at the place of that node or below it,
/// so that nothing of one entry is ever drawn under the path of another.
pub proof fn lemma_calls_stay_with_their_node(
    value: JsonTreeValue,
    label: Option<Segment>,
    path: Seq<Segment>,
    frame: Frame,
)
    ensures
        all_drawn_below(node_events(value, label, path, frame), path),
    decreases value, 0nat,
{
    assert(path.take(path.len() as int) =~= path);
    match value {
        JsonTreeValue::Base(_, _) => {},
        JsonTreeValue::Expandable(entries, kind) => {
            let key = NodeKey { tree: frame.tree, path };
            if path.len() == 0 && !frame.open.contains(key) {
                let events = node_events(value, label, path, frame);
                assert forall|i: int| 0 <= i < events.len() implies drawn_below(
                    #[trigger] events[i],
                    path,
                ) by {
                    assert forall|pointer: Seq<Segment>| at_or_below(pointer, path) by {
                        assert(pointer.take(0) =~= path);
                    }
                }
            } else if frame.open.contains(key) {
                lemma_entries_drawn_below(entries@, kind, path, frame, entries@.len());
            }
        },
    }
}

/// Showing a tree a second time, with the same settings and no toggle in
/// between, makes the same render calls and meets the same nodes as the
/// first time, and leaves the store as the first pass left it.
pub proof fn lemma_second_pass_repeats_first(
    value: JsonTreeValue,
    label: Option<Segment>,
    tree: u64,
    abbreviate_root: bool,
    policy: Policy,
    store: Map<NodeKey, bool>,
)
    ensures
        ({
            let first = Frame { tree, abbreviate_root, open: open_nodes(policy, store) };
            let met = node_visited(value, Seq::empty(), first);
            let after = seeded(store, met, policy);
            let second = Frame { tree, abbreviate_root, open: open_nodes(policy, after) };
            &&& node_events(value, label, Seq::empty(), second) == node_events(
                value,
                label,
                Seq::empty(),
                first,
            )
            &&& node_visited(value, Seq::empty(), second) == met
            &&& seeded(after, node_visited(value, Seq::empty(), second), policy) == after
        }),
{
    let first = Frame { tree, abbreviate_root, open: open_nodes(policy, store) };
    let met = node_visited(value, Seq::empty(), first);
    let after = seeded(store, met, policy);
    lemma_seeding_keeps_open_nodes(store, met, policy);
    assert(seeded(after, met, policy) =~= after);
}

/// A pass over a tree whose root is closed meets the root and no other
/// node, however much of the tree below the root was open before: one node
/// if the root is expandable, none if it is atomic.
pub proof fn lemma_closed_root_is_met_alone(value: JsonTreeValue, frame: Frame)
    requires
        !frame.open.contains(root_key(frame.tree)),
    ensures
        value is Expandable ==> node_visited(value, Seq::empty(), frame) == set![
            root_key(frame.tree),
        ] && node_visited(value, Seq::empty(), frame).len() == 1,
        value is Base ==> node_visited(value, Seq::empty(), frame) == Set::<NodeKey>::empty()
            && node_visited(value, Seq::empty(), frame).len() == 0,
{
}

/// Where every node is closed by default and nothing is remembered of the
/// root, a pass meets exactly one node, the root, whatever the tree holds.
pub proof fn lemma_all_closed_meets_root_only(
    value: JsonTreeValue,
    tree: u64,
    abbreviate_root: bool,
    store: Map<NodeKey, bool>,
)
    requires
        value is Expandable,
        !store.contains_key(root_key(tree)),
    ensures
        ({
            let frame = Frame { tree, abbreviate_root, open: open_nodes(Policy::Closed, store) };
            &&& node_visited(value, Seq::empty(), frame) == set![root_key(tree)]
            &&& node_visited(value, Seq::empty(), frame).len() == 1
        }),
{
    let frame = Frame { tree, abbreviate_root, open: open_nodes(Policy::Closed, store) };
    lemma_closed_root_is_met_alone(value, frame);
}

/// Whether an expandable node stands where `rest` leads to from `value`.
pub open spec fn expandable_at(value: JsonTreeValue, rest: Seq<Segment>) -> bool
    decreases value,
{
    match value {
        JsonTreeValue::Base(_, _) => false,
        JsonTreeValue::Expandable(entries, _) => rest.len() == 0 || exists|i: int|
            0 <= i < entries@.len() && (#[trigger] entries@[i]).0@ == rest[0] && expandable_at(
                entries@[i].1,
                rest.drop_first(),
            ),
    }
}

/// Whether every node is open that stands on the way from `path` along
/// `rest`, the node at `path` among them, the node at the end not.
pub open spec fn open_along(frame: Frame, path: Seq<Segment>, rest: Seq<Segment>) -> bool {
    forall|j: int|
        0 <= j < rest.len() ==> frame.open.contains(
            NodeKey { tree: frame.tree, path: path + #[trigger] rest.take(j) },
        )
}

/// Whether `rest` leads from the node `value` at `path` to an expandable
/// node with the identity `key`, through open nodes only.
pub open spec fn reaches(
    value: JsonTreeValue,
    path: Seq<Segment>,
    frame: Frame,
    key: NodeKey,
    rest: Seq<Segment>,
) -> bool {
    &&& key.tree == frame.tree
    &&& key.path == path + rest
    &&& expandable_at(value, rest)
    &&& open_along(frame, path, rest)
}

proof fn lemma_met_below_entries(
    entries: Entries,
    path: Seq<Segment>,
    frame: Frame,
    n: nat,
    key: NodeKey,
)
    requires
        n <= entries.len(),
    ensures
        entries_visited(entries, path, frame, n).contains(key) <==> exists|i: int|
            0 <= i < n && node_visited(
                (#[trigger] entries[i]).1,
                path.push(entries[i].0@),
                frame,
            ).contains(key),
    decreases n,
{
    if n > 0 {
        lemma_met_below_entries(entries, path, frame, (n - 1) as nat, key);
        if node_visited(entries[n - 1].1, path.push(entries[n - 1].0@), frame).contains(key) {
            assert(0 <= n - 1 < n && node_visited(
                entries[n - 1].1,
                path.push(entries[n - 1].0@),
                frame,
            ).contains(key));
        }
    }
}

/// A pass meets exactly the expandable nodes that can be reached from the
/// root without crossing a closed node: a node is met if and only if it is
/// expandable and every node above it is open.
pub proof fn lemma_met_nodes_are_the_reachable_ones(
    value: JsonTreeValue,
    path: Seq<Segment>,
    frame: Frame,
    key: NodeKey,
)
    ensures
        node_visited(value, path, frame).contains(key) <==> exists|rest: Seq<Segment>|
            reaches(value, path, frame, key, rest),
    decreases value,
{
    match value {
        JsonTreeValue::Base(_, _) => {},
        JsonTreeValue::Expandable(entries, _) => {
            let own = NodeKey { tree: frame.tree, path };
            let none = Seq::<Segment>::empty();
            lemma_met_below_entries(entries@, path, frame, entries@.len(), key);
            if node_visited(value, path, frame).contains(key) {
                if key == own {
                    assert(path + none =~= path);
                    assert(reaches(value, path, frame, key, none));
                } else {
                    let i = choose|i: int|
                        0 <= i < entries@.len() && node_visited(
                            (#[trigger] entries@[i]).1,
                            path.push(entries@[i].0@),
                            frame,
                        ).contains(key);
                    let step = entries@[i].0@;
                    lemma_met_nodes_are_the_reachable_ones(
                        entries@[i].1,
                        path.push(step),
                        frame,
                        key,
                    );
                    let below = choose|below: Seq<Segment>|
                        reaches(entries@[i].1, path.push(step), frame, key, below);
                    let rest = seq![step] + below;
                    assert(rest.drop_first() =~= below);
                    assert(path + rest =~= path.push(step) + below);
                    assert forall|j: int| 0 <= j < rest.len() implies frame.open.contains(
                        NodeKey { tree: frame.tree, path: path + #[trigger] rest.take(j) },
                    ) by {
                        if j == 0 {
                            assert(path + rest.take(0) =~= path);
                        } else {
                            assert(path + rest.take(j) =~= path.push(step) + below.take(j - 1));
                        }
                    }
                    assert(reaches(value, path, frame, key, rest));
                }
            }
            if exists|rest: Seq<Segment>| reaches(value, path, frame, key, rest) {
                let rest = choose|rest: Seq<Segment>| reaches(value, path, frame, key, rest);
                if rest.len() == 0 {
                    assert(path + rest =~= path);
                } else {
                    let i = choose|i: int|
                        0 <= i < entries@.len() && (#[trigger] entries@[i]).0@ == rest[0]
                            && expandable_at(entries@[i].1, rest.drop_first());
                    let step = entries@[i].0@;
                    let below = rest.drop_first();
                    assert(rest.take(0) =~= none);
                    assert(path + rest.take(0) =~= path);
                    assert(frame.open.contains(own));
                    assert(path.push(step) + below =~= path + rest);
                    assert forall|j: int| 0 <= j < below.len() implies frame.open.contains(
                        NodeKey {
                            tree: frame.tree,
                            path: path.push(step) + #[trigger] below.take(j),
                        },
                    ) by {
                        assert(path.push(step) + below.take(j) =~= path + rest.take(j + 1));
                    }
                    assert(reaches(entries@[i].1, path.push(step), frame, key, below));
                    lemma_met_nodes_are_the_reachable_ones(
                        entries@[i].1,
                        path.push(step),
                        frame,
                        key,
                    );
                }
            }
        },
    }
}

/// The number of calls that each entry of a closed root takes on its one
/// line: label, colon, value and separator in an object; value and
/// separator in an array.
pub open spec fn calls_per_summary_entry(kind: ExpandableType) -> nat {
    match kind {
        ExpandableType::Object => 4,
        ExpandableType::Array => 2,
    }
}

/// The one line for the first `n` entries of a closed root takes a fixed
/// number of calls for each entry, and none of them reaches below the
/// entries themselves.
pub proof fn lemma_summary_is_shallow(entries: Entries, kind: ExpandableType, tree: u64, n: nat)
    requires
        n <= entries.len(),
    ensures
        summary_events(entries, kind, root_key(tree), n).len() == n * calls_per_summary_entry(kind),
        forall|i: int|
            0 <= i < summary_events(entries, kind, root_key(tree), n).len() ==> event_depth(
                #[trigger] summary_events(entries, kind, root_key(tree), n)[i],
            ) <= 1,
    decreases n,
{
    if n > 0 {
        lemma_summary_is_shallow(entries, kind, tree, (n - 1) as nat);
        let before = summary_events(entries, kind, root_key(tree), (n - 1) as nat);
        let entry = summary_entry_events(entries[n - 1], kind, root_key(tree), n == entries.len());
        assert(summary_events(entries, kind, root_key(tree), n) == before + entry);
        assert(entry.len() == calls_per_summary_entry(kind));
        assert(n * calls_per_summary_entry(kind) == (n - 1) * calls_per_summary_entry(kind)
            + calls_per_summary_entry(kind)) by (nonlinear_arith);
        assert forall|i: int| 0 <= i < entry.len() implies event_depth(#[trigger] entry[i])
            <= 1 by {}
    }
}

/// Showing a closed root costs no more than its own entries: it takes one
/// call in the short form, and else three calls and a fixed number for each
/// entry; no call reaches below depth 1; and no node but the root is met.
/// The depth of the tree plays no part.
pub proof fn lemma_closed_root_is_shallow(value: JsonTreeValue, frame: Frame)
    requires
        value is Expandable,
        !frame.open.contains(root_key(frame.tree)),
    ensures
        ({
            let events = node_events(value, None, Seq::empty(), frame);
            &&& value matches JsonTreeValue::Expandable(entries, kind) ==> events.len()
                == if frame.abbreviate_root {
                1
            } else {
                3 + entries@.len() * calls_per_summary_entry(kind)
            }
            &&& forall|i: int| 0 <= i < events.len() ==> event_depth(#[trigger] events[i]) <= 1
            &&& node_visited(value, Seq::empty(), frame) == set![root_key(frame.tree)]
        }),
{
    let events = node_events(value, None, Seq::empty(), frame);
    match value {
        JsonTreeValue::Expandable(entries, kind) => {
            if !frame.abbreviate_root {
                lemma_summary_is_shallow(entries@, kind, frame.tree, entries@.len());
                let summary = summary_events(entries@, kind, root_key(frame.tree), entries@.len());
                assert forall|i: int| 0 <= i < events.len() implies event_depth(
                    #[trigger] events[i],
                ) <= 1 by {
                    if 2 <= i < 2 + summary.len() {
                        assert(events[i] == summary[i - 2]);
                    }
                }
            }
        },
        JsonTreeValue::Base(_, _) => {},
    }
}

/// Whether two entries look the same from one level up: they stand under
/// the same segment and are the same atomic value, or are expandable nodes
/// of the same kind that both have entries or both have none.
pub open spec fn alike_from_above(
    a: (JsonPointerSegment, JsonTreeValue),
    b: (JsonPointerSegment, JsonTreeValue),
) -> bool {
    &&& a.0@ == b.0@
    &&& match a.1 {
        JsonTreeValue::Base(display_a, type_a) => b.1 matches JsonTreeValue::Base(
            display_b,
            type_b,
        ) && display_a@ == display_b@ && type_a == type_b,
        JsonTreeValue::Expandable(inner_a, kind_a) => b.1 matches JsonTreeValue::Expandable(
            inner_b,
            kind_b,
        ) && kind_a == kind_b && (inner_a@.len() == 0 <==> inner_b@.len() == 0),
    }
}

proof fn lemma_summary_ignores_what_lies_deeper(
    a: Entries,
    b: Entries,
    kind: ExpandableType,
    root: NodeKey,
    n: nat,
)
    requires
        a.len() == b.len(),
        n <= a.len(),
        forall|i: int| 0 <= i < a.len() ==> alike_from_above(#[trigger] a[i], b[i]),
    ensures
        summary_events(a, kind, root, n) == summary_events(b, kind, root, n),
    decreases n,
{
    if n > 0 {
        lemma_summary_ignores_what_lies_deeper(a, b, kind, root, (n - 1) as nat);
        assert(alike_from_above(a[n - 1], b[n - 1]));
    }
}

/// What a closed root shows depends on its entries as far as they can be
/// told apart from one level up, and on nothing that lies deeper: two
/// documents that differ only below the entries of the root give the same
/// calls.
pub proof fn lemma_closed_root_ignores_what_lies_deeper(
    a: JsonTreeValue,
    b: JsonTreeValue,
    frame: Frame,
)
    requires
        !frame.open.contains(root_key(frame.tree)),
        a matches JsonTreeValue::Expandable(entries_a, kind_a) && b matches JsonTreeValue::Expandable(
            entries_b,
            kind_b,
        ) && kind_a == kind_b && entries_a@.len() == entries_b@.len() && forall|i: int|
            0 <= i < entries_a@.len() ==> alike_from_above(#[trigger] entries_a@[i], entries_b@[i]),
    ensures
        node_events(a, None, Seq::empty(), frame) == node_events(b, None, Seq::empty(), frame),
        node_visited(a, Seq::empty(), frame) == node_visited(b, Seq::empty(), frame),
{
    match a {
        JsonTreeValue::Expandable(entries_a, kind) => match b {
            JsonTreeValue::Expandable(entries_b, _) => {
                lemma_summary_ignores_what_lies_deeper(
                    entries_a@,
                    entries_b@,
                    kind,
                    root_key(frame.tree),
                    entries_a@.len(),
                );
            },
            JsonTreeValue::Base(_, _) => {},
        },
        JsonTreeValue::Base(_, _) => {},
    }
}

} // verus!
