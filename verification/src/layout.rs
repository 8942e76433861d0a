//! How the render calls of a pass fall into rows.
//!
//! An open node takes a row for its label and opening marker, then the rows
//! of its entries, set in by one level, then a row for its closing marker.
//! Every other node takes one row. A comma stays on the row of the entry
//! that it follows. A closed root that shows its entries takes one row for
//! all of it.

use vstd::prelude::*;
use crate::bracketing::lemma_entries_commas;
use crate::delimiters::ExpandableDelimiter;
use crate::delimiters::SpacingDelimiter;
use crate::model::entries_events;
use crate::model::node_events;
use crate::model::Frame;
use crate::pointer::NodeKey;
use crate::pointer::Segment;
use crate::render::events_view;
use crate::render::Event;
use crate::render::RenderEvent;
use crate::value::JsonTreeValue;

verus! {

/// Whether the call is an opening marker.
pub open spec fn opens(event: Event) -> bool {
    event matches Event::ExpandableDelimiter { delimiter, .. } && delimiter.is_opening()
}

/// Whether the call is a closing marker.
pub open spec fn closes(event: Event) -> bool {
    event matches Event::ExpandableDelimiter { delimiter, .. } && delimiter.is_closing()
}

/// Whether the call is the separator of the given form.
pub open spec fn separates(event: Event, form: SpacingDelimiter) -> bool {
    event == (Event::SpacingDelimiter { delimiter: form })
}

/// Whether the calls are those of a closed root that shows its entries on
/// one line: only there an empty separator follows the first marker.
pub open spec fn is_one_line(events: Seq<Event>) -> bool {
    events.len() >= 2 && separates(events[1], SpacingDelimiter::Empty)
}

/// Whether a new row begins with the call at `i`: after an opening marker,
/// after a comma, and before a closing marker, unless all is on one line.
pub open spec fn breaks_before(events: Seq<Event>, i: int) -> bool {
    &&& 0 < i < events.len()
    &&& !is_one_line(events)
    &&& opens(events[i - 1]) || separates(events[i - 1], SpacingDelimiter::Comma) || closes(events[i])
}

/// The number of nodes that the first `i` calls have opened and not closed.
pub open spec fn nesting(events: Seq<Event>, i: nat) -> nat
    decreases i,
{
    if i == 0 || i > events.len() {
        0
    } else {
        let before = nesting(events, (i - 1) as nat);
        if opens(events[i - 1]) {
            before + 1
        } else if closes(events[i - 1]) && before > 0 {
            (before - 1) as nat
        } else {
            before
        }
    }
}

/// How many levels the row that begins at `start` is set in: one for each
/// node that stands open around what the row shows. A closing marker stands
/// level with the opening marker of its node.
pub open spec fn row_depth(events: Seq<Event>, start: nat) -> nat {
    let around = nesting(events, start);
    if start < events.len() && closes(events[start as int]) && around > 0 {
        (around - 1) as nat
    } else {
        around
    }
}

/// Whether the call is a marker that stands at the head of a node: one that
/// opens it, or one that stands for all of it.
pub open spec fn heads_node(event: Event) -> bool {
    event matches Event::ExpandableDelimiter { delimiter, .. } && !delimiter.is_closing()
}

/// Whether `at` is the place of the first call among those from `start` up
/// to `end` that heads a node, or `None` if none of them does.
pub open spec fn first_head(events: Seq<Event>, start: int, end: int, at: Option<usize>) -> bool {
    match at {
        Some(i) => start <= i < end && heads_node(events[i as int]) && forall|j: int|
            start <= j < i ==> !heads_node(#[trigger] events[j]),
        None => forall|j: int| start <= j < end ==> !heads_node(#[trigger] events[j]),
    }
}

/// A row: the calls from `start` up to, not including, `end`, set in by
/// `depth` levels. If the row is the first row of an expandable node,
/// `node_marker` is the place of the marker of that node, whose button
/// stands at the head of the row.
#[derive(Debug, Clone, Copy, PartialEq, Eq, Structural)]
pub struct RenderRow {
    pub start: usize,
    pub end: usize,
    pub depth: usize,
    pub node_marker: Option<usize>,
}

/// The rows follow one another without gap or overlap, none is empty, and
/// together they hold the calls from the first to the last.
pub open spec fn rows_cover(rows: Seq<RenderRow>, calls: nat) -> bool {
    &&& calls == 0 <==> rows.len() == 0
    &&& rows.len() > 0 ==> rows[0].start == 0 && rows.last().end == calls
    &&& forall|k: int| 0 <= k < rows.len() ==> (#[trigger] rows[k]).start < rows[k].end
    &&& forall|k: int| 0 <= k < rows.len() - 1 ==> (#[trigger] rows[k]).end == rows[k + 1].start
}

fn is_opening(event: &RenderEvent) -> (yes: bool)
    ensures
        yes == opens(event@),
{
    match event {
        RenderEvent::ExpandableDelimiter { delimiter, .. } => match delimiter {
            ExpandableDelimiter::OpeningArray | ExpandableDelimiter::OpeningObject => true,
            _ => false,
        },
        _ => false,
    }
}

fn is_closing(event: &RenderEvent) -> (yes: bool)
    ensures
        yes == closes(event@),
{
    match event {
        RenderEvent::ExpandableDelimiter { delimiter, .. } => match delimiter {
            ExpandableDelimiter::ClosingArray | ExpandableDelimiter::ClosingObject => true,
            _ => false,
        },
        _ => false,
    }
}

fn is_head(event: &RenderEvent) -> (yes: bool)
    ensures
        yes == heads_node(event@),
{
    match event {
        RenderEvent::ExpandableDelimiter { delimiter, .. } => match delimiter {
            ExpandableDelimiter::ClosingArray | ExpandableDelimiter::ClosingObject => false,
            _ => true,
        },
        _ => false,
    }
}

fn is_separator(event: &RenderEvent, form: SpacingDelimiter) -> (yes: bool)
    ensures
        yes == separates(event@, form),
{
    match event {
        RenderEvent::SpacingDelimiter { delimiter } => *delimiter == form,
        _ => false,
    }
}

/// The nesting after the first `i` calls is at most `i`.
proof fn lemma_nesting_bounded(events: Seq<Event>, i: nat)
    ensures
        nesting(events, i) <= i,
    decreases i,
{
    if i > 0 && i <= events.len() {
        lemma_nesting_bounded(events, (i - 1) as nat);
    }
}

/// The calls of a pass are taken for one line exactly where they are one
/// line: where the root is expandable and closed and shows its entries.
pub proof fn lemma_one_line_is_closed_root(
    value: JsonTreeValue,
    label: Option<Segment>,
    frame: Frame,
)
    ensures
        is_one_line(node_events(value, label, Seq::empty(), frame)) <==> value is Expandable
            && !frame.abbreviate_root && !frame.open.contains(
            NodeKey { tree: frame.tree, path: Seq::empty() },
        ),
{
    let path = Seq::<Segment>::empty();
    let events = node_events(value, label, path, frame);
    match value {
        JsonTreeValue::Base(_, _) => {},
        JsonTreeValue::Expandable(entries, kind) => {
            let key = NodeKey { tree: frame.tree, path };
            if frame.open.contains(key) && label.is_none() {
                let body = entries_events(entries@, kind, path, frame, entries@.len());
                lemma_entries_commas(entries@, kind, path, frame, entries@.len());
                if entries@.len() > 0 {
                    assert(events[1] == body[0]);
                }
            }
        },
    }
}

/// The rows of the calls of a pass, first row first.
pub fn rows(events: &Vec<RenderEvent>) -> (rows: Vec<RenderRow>)
    ensures
        rows_cover(rows@, events@.len()),
        forall|k: int|
            0 < k < rows@.len() ==> breaks_before(
                events_view(events@),
                (#[trigger] rows@[k]).start as int,
            ),
        forall|k: int, i: int|
            0 <= k < rows@.len() && (#[trigger] rows@[k]).start < i < rows@[k].end
                ==> !#[trigger] breaks_before(events_view(events@), i),
        forall|k: int|
            0 <= k < rows@.len() ==> (#[trigger] rows@[k]).depth == row_depth(
                events_view(events@),
                rows@[k].start as nat,
            ),
        forall|k: int|
            0 <= k < rows@.len() ==> first_head(
                events_view(events@),
                (#[trigger] rows@[k]).start as int,
                rows@[k].end as int,
                rows@[k].node_marker,
            ),
{
    let ghost calls = events_view(events@);
    let mut rows: Vec<RenderRow> = Vec::new();
    let n: usize = events.len();
    if n == 0 {
        return rows;
    }
    let one_line = n >= 2 && is_separator(&events[1], SpacingDelimiter::Empty);
    let mut start: usize = 0;
    let mut around: usize = 0;
    let mut depth: usize = 0;
    let mut node_marker: Option<usize> = None;
    let mut i: usize = 0;
    while i < n
        invariant
            n == events.len(),
            n > 0,
            calls == events_view(events@),
            one_line == is_one_line(calls),
            i <= n,
            start <= i,
            i > 0 ==> start < i,
            around == nesting(calls, i as nat),
            depth == row_depth(calls, start as nat),
            start == 0 <==> rows@.len() == 0,
            rows@.len() > 0 ==> rows@[0].start == 0 && rows@.last().end == start,
            forall|k: int| 0 <= k < rows@.len() ==> (#[trigger] rows@[k]).start < rows@[k].end,
            forall|k: int| 0 <= k < rows@.len() - 1 ==> (#[trigger] rows@[k]).end == rows@[k + 1].start,
            forall|k: int| 0 < k < rows@.len() ==> breaks_before(calls, (#[trigger] rows@[k]).start as int),
            start > 0 ==> breaks_before(calls, start as int),
            forall|k: int, j: int|
                0 <= k < rows@.len() && (#[trigger] rows@[k]).start < j < rows@[k].end
                    ==> !#[trigger] breaks_before(calls, j),
            forall|j: int| start < j < i ==> !#[trigger] breaks_before(calls, j),
            forall|k: int|
                0 <= k < rows@.len() ==> (#[trigger] rows@[k]).depth == row_depth(
                    calls,
                    rows@[k].start as nat,
                ),
            forall|k: int|
                0 <= k < rows@.len() ==> first_head(
                    calls,
                    (#[trigger] rows@[k]).start as int,
                    rows@[k].end as int,
                    rows@[k].node_marker,
                ),
            first_head(calls, start as int, i as int, node_marker),
        decreases n - i,
    {
        let closing = is_closing(&events[i]);
        let breaks = i > 0 && !one_line && (is_opening(&events[i - 1]) || is_separator(
            &events[i - 1],
            SpacingDelimiter::Comma,
        ) || closing);
        assert(breaks == breaks_before(calls, i as int));
        if breaks {
            rows.push(RenderRow { start, end: i, depth, node_marker });
            start = i;
            node_marker = None;
            depth = if closing && around > 0 {
                around - 1
            } else {
                around
            };
        }
        proof {
            lemma_nesting_bounded(calls, i as nat);
        }
        if node_marker.is_none() && is_head(&events[i]) {
            node_marker = Some(i);
        }
        if is_opening(&events[i]) {
            around = around + 1;
        } else if closing && around > 0 {
            around = around - 1;
        }
        i = i + 1;
    }
    rows.push(RenderRow { start, end: n, depth, node_marker });
    rows
}

} // verus!
