//! What a search finds, and that it shows what it finds: the paths of the
//! matches are the places of the matching nodes, and no match stays hidden
//! inside a closed node.

use vstd::prelude::*;
use crate::delimiters::delimiters_of;
use crate::expand::open_nodes;
use crate::expand::Policy;
use crate::model::comma_unless_last;
use crate::model::entries_events;
use crate::model::entry_label;
use crate::model::label_events;
use crate::model::marker;
use crate::model::node_events;
use crate::model::Entries;
use crate::model::Frame;
use crate::pointer::NodeKey;
use crate::pointer::Segment;
use crate::render::Event;
use crate::search::ancestors;
use crate::search::entries_match_paths;
use crate::search::label_matches;
use crate::search::lemma_search_opens_ancestors_of_matches;
use crate::search::match_paths;
use crate::search::search_opens;
use crate::search::term_matches;
use crate::value::ExpandableType;
use crate::value::JsonTreeValue;

verus! {

/// Whether a match stands where `rest` leads to from `value`: an atomic node
/// whose display form the term occurs in, or an entry of an object whose
/// key the term occurs in.
pub open spec fn matched_at(value: JsonTreeValue, rest: Seq<Segment>, term: Seq<char>) -> bool
    decreases value,
{
    match value {
        JsonTreeValue::Base(display_value, _) => rest.len() == 0 && term_matches(
            term,
            display_value@,
        ),
        JsonTreeValue::Expandable(entries, kind) => rest.len() > 0 && exists|i: int|
            0 <= i < entries@.len() && (#[trigger] entries@[i]).0@ == rest[0] && (rest.len() == 1
                && label_matches(term, kind, entries@[i].0@) || matched_at(
                entries@[i].1,
                rest.drop_first(),
                term,
            )),
    }
}

/// Whether `rest` leads from the node `value` at `path` to a match at
/// `found`.
pub open spec fn leads_to_match(
    value: JsonTreeValue,
    path: Seq<Segment>,
    term: Seq<char>,
    found: Seq<Segment>,
    rest: Seq<Segment>,
) -> bool {
    found == path + rest && matched_at(value, rest, term)
}

proof fn lemma_matches_below_entries(
    entries: Entries,
    kind: ExpandableType,
    path: Seq<Segment>,
    term: Seq<char>,
    n: nat,
    found: Seq<Segment>,
)
    requires
        n <= entries.len(),
    ensures
        entries_match_paths(entries, kind, path, term, n).contains(found) <==> exists|i: int|
            0 <= i < n && (label_matches(term, kind, (#[trigger] entries[i]).0@) && found
                == path.push(entries[i].0@) || match_paths(
                entries[i].1,
                path.push(entries[i].0@),
                term,
            ).contains(found)),
    decreases n,
{
    if n > 0 {
        lemma_matches_below_entries(entries, kind, path, term, (n - 1) as nat, found);
        let last = entries[n - 1];
        if label_matches(term, kind, last.0@) && found == path.push(last.0@) || match_paths(
            last.1,
            path.push(last.0@),
            term,
        ).contains(found) {
            assert(0 <= n - 1 < n && (label_matches(term, kind, entries[n - 1].0@) && found
                == path.push(entries[n - 1].0@) || match_paths(
                entries[n - 1].1,
                path.push(entries[n - 1].0@),
                term,
            ).contains(found)));
        }
    }
}

/// The paths of the matches are the places of the matching nodes: a path is
/// among them if and only if it leads to an atomic node whose display form
/// the term occurs in, or to an entry of an object whose key the term
/// occurs in.
pub proof fn lemma_match_paths_are_the_matching_places(
    value: JsonTreeValue,
    path: Seq<Segment>,
    term: Seq<char>,
    found: Seq<Segment>,
)
    ensures
        match_paths(value, path, term).contains(found) <==> exists|rest: Seq<Segment>|
            leads_to_match(value, path, term, found, rest),
    decreases value,
{
    let none = Seq::<Segment>::empty();
    match value {
        JsonTreeValue::Base(_, _) => {
            if match_paths(value, path, term).contains(found) {
                assert(path + none =~= path);
                assert(leads_to_match(value, path, term, found, none));
            }
            if exists|rest: Seq<Segment>| leads_to_match(value, path, term, found, rest) {
                let rest = choose|rest: Seq<Segment>| leads_to_match(value, path, term, found, rest);
                assert(path + rest =~= path);
            }
        },
        JsonTreeValue::Expandable(entries, kind) => {
            lemma_matches_below_entries(entries@, kind, path, term, entries@.len(), found);
            if match_paths(value, path, term).contains(found) {
                let i = choose|i: int|
                    0 <= i < entries@.len() && (label_matches(
                        term,
                        kind,
                        (#[trigger] entries@[i]).0@,
                    ) && found == path.push(entries@[i].0@) || match_paths(
                        entries@[i].1,
                        path.push(entries@[i].0@),
                        term,
                    ).contains(found));
                let step = entries@[i].0@;
                if match_paths(entries@[i].1, path.push(step), term).contains(found) {
                    lemma_match_paths_are_the_matching_places(
                        entries@[i].1,
                        path.push(step),
                        term,
                        found,
                    );
                    let below = choose|below: Seq<Segment>|
                        leads_to_match(entries@[i].1, path.push(step), term, found, below);
                    let rest = seq![step] + below;
                    assert(rest.drop_first() =~= below);
                    assert(path + rest =~= path.push(step) + below);
                    assert(leads_to_match(value, path, term, found, rest));
                } else {
                    let rest = seq![step];
                    assert(path + rest =~= path.push(step));
                    assert(leads_to_match(value, path, term, found, rest));
                }
            }
            if exists|rest: Seq<Segment>| leads_to_match(value, path, term, found, rest) {
                let rest = choose|rest: Seq<Segment>| leads_to_match(value, path, term, found, rest);
                let i = choose|i: int|
                    0 <= i < entries@.len() && (#[trigger] entries@[i]).0@ == rest[0] && (rest.len()
                        == 1 && label_matches(term, kind, entries@[i].0@) || matched_at(
                        entries@[i].1,
                        rest.drop_first(),
                        term,
                    ));
                let step = entries@[i].0@;
                let below = rest.drop_first();
                assert(path.push(step) + below =~= path + rest);
                if matched_at(entries@[i].1, below, term) {
                    assert(leads_to_match(entries@[i].1, path.push(step), term, found, below));
                    lemma_match_paths_are_the_matching_places(
                        entries@[i].1,
                        path.push(step),
                        term,
                        found,
                    );
                } else {
                    assert(below =~= none);
                    assert(path.push(step) + none =~= path.push(step));
                }
            }
        },
    }
}

/// Whether the call draws the label or the value that stands at `at`.
pub open spec fn shows(event: Event, at: Seq<Segment>) -> bool {
    match event {
        Event::Property { pointer, .. } => pointer == at,
        Event::Value { pointer, .. } => pointer == at,
        _ => false,
    }
}

/// Whether one of the calls draws the label or the value that stands at
/// `at`.
pub open spec fn draws_at(events: Seq<Event>, at: Seq<Segment>) -> bool {
    exists|i: int| 0 <= i < events.len() && shows(#[trigger] events[i], at)
}

/// Whether every node is open that stands on the way down to `to`, from
/// the node at depth `from` on; the node at `to` itself is not asked.
pub open spec fn open_down(frame: Frame, from: nat, to: Seq<Segment>) -> bool {
    forall|j: int|
        from <= j < to.len() ==> frame.open.contains(
            NodeKey { tree: frame.tree, path: #[trigger] to.take(j) },
        )
}

proof fn lemma_draws_in_front(a: Seq<Event>, b: Seq<Event>, at: Seq<Segment>)
    requires
        draws_at(a, at),
    ensures
        draws_at(a + b, at),
{
    let i = choose|i: int| 0 <= i < a.len() && shows(#[trigger] a[i], at);
    assert(shows((a + b)[i], at));
}

proof fn lemma_draws_behind(a: Seq<Event>, b: Seq<Event>, at: Seq<Segment>)
    requires
        draws_at(b, at),
    ensures
        draws_at(a + b, at),
{
    let i = choose|i: int| 0 <= i < b.len() && shows(#[trigger] b[i], at);
    assert(shows((a + b)[a.len() + i], at));
}

proof fn lemma_draws_before_last(a: Seq<Event>, last: Event, at: Seq<Segment>)
    requires
        draws_at(a, at),
    ensures
        draws_at(a.push(last), at),
{
    let i = choose|i: int| 0 <= i < a.len() && shows(#[trigger] a[i], at);
    assert(shows(a.push(last)[i], at));
}

/// A match at or below a node stands at the node itself if the node is
/// atomic, and strictly below it if the node is expandable.
proof fn lemma_matches_lie_below(
    value: JsonTreeValue,
    path: Seq<Segment>,
    term: Seq<char>,
    found: Seq<Segment>,
)
    requires
        match_paths(value, path, term).contains(found),
    ensures
        path.len() <= found.len(),
        found.take(path.len() as int) == path,
        value is Base ==> found == path,
        value is Expandable ==> path.len() < found.len(),
    decreases value, 0nat,
{
    match value {
        JsonTreeValue::Base(_, _) => {
            assert(found.take(path.len() as int) =~= path);
        },
        JsonTreeValue::Expandable(entries, kind) => {
            lemma_entry_matches_lie_below(entries@, kind, path, term, entries@.len(), found);
        },
    }
}

proof fn lemma_entry_matches_lie_below(
    entries: Entries,
    kind: ExpandableType,
    path: Seq<Segment>,
    term: Seq<char>,
    n: nat,
    found: Seq<Segment>,
)
    requires
        entries_match_paths(entries, kind, path, term, n).contains(found),
    ensures
        path.len() < found.len(),
        found.take(path.len() as int) == path,
    decreases entries, n,
{
    if n == 0 || n > entries.len() {
    } else {
        let child_path = path.push(entries[n - 1].0@);
        if entries_match_paths(entries, kind, path, term, (n - 1) as nat).contains(found) {
            lemma_entry_matches_lie_below(entries, kind, path, term, (n - 1) as nat, found);
        } else if match_paths(entries[n - 1].1, child_path, term).contains(found) {
            lemma_matches_lie_below(entries[n - 1].1, child_path, term, found);
            assert(found.take(path.len() as int) =~= found.take(child_path.len() as int).take(
                path.len() as int,
            ));
            assert(child_path.take(path.len() as int) =~= path);
        } else {
            assert(found == child_path);
            assert(child_path.take(path.len() as int) =~= path);
        }
    }
}

/// A match is drawn if every node above it is open: its value if it is an
/// atomic node, its label if it is an entry that matches by its key.
pub proof fn lemma_match_below_open_nodes_is_drawn(
    value: JsonTreeValue,
    label: Option<Segment>,
    path: Seq<Segment>,
    frame: Frame,
    term: Seq<char>,
    found: Seq<Segment>,
)
    requires
        match_paths(value, path, term).contains(found),
        open_down(frame, path.len(), found),
    ensures
        draws_at(node_events(value, label, path, frame), found),
    decreases value, 0nat,
{
    let events = node_events(value, label, path, frame);
    lemma_matches_lie_below(value, path, term, found);
    match value {
        JsonTreeValue::Base(_, _) => {
            assert(shows(events.last(), found));
        },
        JsonTreeValue::Expandable(entries, kind) => {
            let key = NodeKey { tree: frame.tree, path };
            assert(found.take(path.len() as int) == path);
            assert(frame.open.contains(key));
            let head = label_events(label, path, Some(key)).push(
                marker(delimiters_of(kind).opening, key),
            );
            let body = entries_events(entries@, kind, path, frame, entries@.len());
            let closing = marker(delimiters_of(kind).closing, key);
            lemma_match_in_open_entries_is_drawn(
                entries@,
                kind,
                path,
                frame,
                term,
                entries@.len(),
                found,
            );
            lemma_draws_before_last(body, closing, found);
            lemma_draws_behind(head, body.push(closing), found);
        },
    }
}

proof fn lemma_match_in_open_entries_is_drawn(
    entries: Entries,
    kind: ExpandableType,
    path: Seq<Segment>,
    frame: Frame,
    term: Seq<char>,
    n: nat,
    found: Seq<Segment>,
)
    requires
        entries_match_paths(entries, kind, path, term, n).contains(found),
        open_down(frame, path.len() + 1, found),
    ensures
        draws_at(entries_events(entries, kind, path, frame, n), found),
    decreases entries, n,
{
    if n == 0 || n > entries.len() {
    } else {
        let child_path = path.push(entries[n - 1].0@);
        let before = entries_events(entries, kind, path, frame, (n - 1) as nat);
        let child = node_events(
            entries[n - 1].1,
            entry_label(kind, entries[n - 1]),
            child_path,
            frame,
        );
        let comma = comma_unless_last(entries, n);
        if entries_match_paths(entries, kind, path, term, (n - 1) as nat).contains(found) {
            lemma_match_in_open_entries_is_drawn(
                entries,
                kind,
                path,
                frame,
                term,
                (n - 1) as nat,
                found,
            );
            lemma_draws_in_front(before, child, found);
        } else {
            if match_paths(entries[n - 1].1, child_path, term).contains(found) {
                lemma_match_below_open_nodes_is_drawn(
                    entries[n - 1].1,
                    entry_label(kind, entries[n - 1]),
                    child_path,
                    frame,
                    term,
                    found,
                );
            } else {
                assert(found == child_path);
                assert(label_matches(term, kind, entries[n - 1].0@));
                assert(shows(child[0], found));
            }
            lemma_draws_behind(before, child, found);
        }
        lemma_draws_in_front(before + child, comma, found);
    }
}

/// A search shows what it finds. Where the nodes that a search opens are
/// open by default, and nothing that is remembered keeps an ancestor of the
/// match closed, the pass draws the match: no match stays hidden inside a
/// closed node.
pub proof fn lemma_search_reveals_every_match(
    value: JsonTreeValue,
    tree: u64,
    abbreviate_root: bool,
    term: Seq<char>,
    store: Map<NodeKey, bool>,
    found: Seq<Segment>,
)
    requires
        match_paths(value, Seq::empty(), term).contains(found),
        forall|key: NodeKey|
            #[trigger] ancestors(tree, found).contains(key) && store.contains_key(key)
                ==> store[key],
    ensures
        ({
            let policy = Policy::Paths(search_opens(value, Seq::empty(), tree, term));
            let frame = Frame { tree, abbreviate_root, open: open_nodes(policy, store) };
            draws_at(node_events(value, None, Seq::empty(), frame), found)
        }),
{
    let policy = Policy::Paths(search_opens(value, Seq::empty(), tree, term));
    let frame = Frame { tree, abbreviate_root, open: open_nodes(policy, store) };
    lemma_search_opens_ancestors_of_matches(value, Seq::empty(), tree, term);
    assert forall|j: int| 0 <= j < found.len() implies frame.open.contains(
        NodeKey { tree, path: #[trigger] found.take(j) },
    ) by {
        let key = NodeKey { tree, path: found.take(j) };
        assert(ancestors(tree, found).contains(key));
        assert(search_opens(value, Seq::empty(), tree, term).contains(key));
    }
    lemma_match_below_open_nodes_is_drawn(value, None, Seq::empty(), frame, term, found);
}

} // verus!
