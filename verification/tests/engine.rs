use egui_json_tree::delimiters::ExpandableDelimiter;
use egui_json_tree::delimiters::SpacingDelimiter;
use egui_json_tree::expand::DefaultExpand;
use egui_json_tree::node::JsonTreeNode;
use egui_json_tree::pointer::identifier_for;
use egui_json_tree::pointer::JsonPointer;
use egui_json_tree::pointer::JsonPointerSegment;
use egui_json_tree::pointer::NodeId;
use egui_json_tree::render::JsonTreeRenderer;
use egui_json_tree::render::RenderEvent;
use egui_json_tree::response::JsonTreeResponse;
use egui_json_tree::search::SearchTerm;
use egui_json_tree::store::ExpansionStore;
use egui_json_tree::style::JsonTreeStyle;
use egui_json_tree::tree::JsonTreeConfig;
use egui_json_tree::value::BaseValueType;
use egui_json_tree::value::ExpandableType;
use egui_json_tree::value::JsonTreeValue;

const TREE: u64 = 7;

fn key(name: &str) -> JsonPointerSegment {
    JsonPointerSegment::Key(name.to_string())
}

fn index(i: usize) -> JsonPointerSegment {
    JsonPointerSegment::Index(i)
}

fn number(text: &str) -> JsonTreeValue {
    JsonTreeValue::Base(text.to_string(), BaseValueType::Number)
}

fn array(items: Vec<JsonTreeValue>) -> JsonTreeValue {
    let mut entries = Vec::new();
    for (i, item) in items.into_iter().enumerate() {
        entries.push((index(i), item));
    }
    JsonTreeValue::Expandable(entries, ExpandableType::Array)
}

fn object(items: Vec<(&str, JsonTreeValue)>) -> JsonTreeValue {
    let mut entries = Vec::new();
    for (name, item) in items {
        entries.push((key(name), item));
    }
    JsonTreeValue::Expandable(entries, ExpandableType::Object)
}

/// {"a": 1, "b": [2, 3]}
fn sample() -> JsonTreeValue {
    object(vec![("a", number("1")), ("b", array(vec![number("2"), number("3")]))])
}

fn pointer(segments: Vec<JsonPointerSegment>) -> JsonPointer {
    JsonPointer { segments }
}

fn id(segments: Vec<JsonPointerSegment>) -> NodeId {
    NodeId { tree: TREE, pointer: pointer(segments) }
}

fn config<'a>(default_expand: DefaultExpand<'a>, abbreviate_root: bool) -> JsonTreeConfig<'a> {
    let mut style = JsonTreeStyle::default();
    style.abbreviate_root = abbreviate_root;
    JsonTreeConfig { style: Some(style), default_expand: Some(default_expand) }
}

fn show(
    value: &JsonTreeValue,
    store: &mut ExpansionStore,
    config: JsonTreeConfig,
) -> (Vec<RenderEvent>, JsonTreeResponse) {
    let mut renderer = JsonTreeRenderer::new();
    let response = JsonTreeNode::new(TREE, value).show_with_config(store, config, &mut renderer);
    (renderer.into_events(), response)
}

fn property(name: &str, at: Vec<JsonPointerSegment>, toggles: Option<NodeId>) -> RenderEvent {
    RenderEvent::Property { property: key(name), pointer: pointer(at), collapsing_state: toggles }
}

fn value(text: &str, at: Vec<JsonPointerSegment>) -> RenderEvent {
    RenderEvent::Value {
        display_value: text.to_string(),
        value_type: BaseValueType::Number,
        pointer: pointer(at),
    }
}

fn delimiter(delimiter: ExpandableDelimiter, at: Vec<JsonPointerSegment>) -> RenderEvent {
    RenderEvent::ExpandableDelimiter {
        delimiter,
        pointer: pointer(at.clone()),
        collapsing_state: id(at),
    }
}

fn root_delimiter(delimiter: ExpandableDelimiter, at: Vec<JsonPointerSegment>) -> RenderEvent {
    RenderEvent::ExpandableDelimiter { delimiter, pointer: pointer(at), collapsing_state: id(vec![]) }
}

fn colon() -> RenderEvent {
    RenderEvent::SpacingDelimiter { delimiter: SpacingDelimiter::Colon }
}

fn comma() -> RenderEvent {
    RenderEvent::SpacingDelimiter { delimiter: SpacingDelimiter::Comma }
}

fn empty() -> RenderEvent {
    RenderEvent::SpacingDelimiter { delimiter: SpacingDelimiter::Empty }
}

fn commas_in(events: &[RenderEvent]) -> usize {
    events.iter().filter(|event| **event == comma()).count()
}

fn depth_of(event: &RenderEvent) -> usize {
    match event {
        RenderEvent::Property { pointer, .. } => pointer.segments.len(),
        RenderEvent::Value { pointer, .. } => pointer.segments.len(),
        RenderEvent::ExpandableDelimiter { pointer, .. } => pointer.segments.len(),
        RenderEvent::SpacingDelimiter { .. } => 0,
    }
}

/// A chain of `depth` nested one-entry arrays around a number.
fn nested(depth: usize) -> JsonTreeValue {
    let mut value = number("0");
    for _ in 0..depth {
        value = array(vec![value]);
    }
    value
}

#[test]
fn expand_all_gives_the_calls_in_document_order() {
    let mut store = ExpansionStore::new();
    let (events, response) = show(&sample(), &mut store, config(DefaultExpand::All, false));
    assert_eq!(
        events,
        vec![
            delimiter(ExpandableDelimiter::OpeningObject, vec![]),
            property("a", vec![key("a")], None),
            colon(),
            value("1", vec![key("a")]),
            comma(),
            property("b", vec![key("b")], Some(id(vec![key("b")]))),
            colon(),
            delimiter(ExpandableDelimiter::OpeningArray, vec![key("b")]),
            value("2", vec![key("b"), index(0)]),
            comma(),
            value("3", vec![key("b"), index(1)]),
            delimiter(ExpandableDelimiter::ClosingArray, vec![key("b")]),
            delimiter(ExpandableDelimiter::ClosingObject, vec![]),
        ]
    );
    assert_eq!(response.collapsing_state_ids.len(), 2);
    assert!(response.collapsing_state_ids.contains(&id(vec![])));
    assert!(response.collapsing_state_ids.contains(&id(vec![key("b")])));
    assert!(!response.collapsing_state_ids.contains(&id(vec![key("a")])));
}

#[test]
fn closed_root_is_one_delimiter() {
    let mut store = ExpansionStore::new();
    let closed = JsonTreeConfig { style: None, default_expand: Some(DefaultExpand::Closed) };
    let (events, response) = show(&sample(), &mut store, closed);
    assert_eq!(events, vec![delimiter(ExpandableDelimiter::CollapsedObject, vec![])]);
    assert_eq!(response.collapsing_state_ids.len(), 1);
    assert!(response.collapsing_state_ids.contains(&id(vec![])));
    assert_eq!(store.len(), 1);
    assert_eq!(store.get(&id(vec![])), Some(false));

    let mut store = ExpansionStore::new();
    let (events, _) = show(&sample(), &mut store, config(DefaultExpand::Closed, true));
    assert_eq!(events, vec![delimiter(ExpandableDelimiter::CollapsedObject, vec![])]);
}

#[test]
fn closed_empty_root_in_short_form_keeps_the_marker_of_a_full_one() {
    let mut store = ExpansionStore::new();
    let (events, _) = show(&array(vec![]), &mut store, config(DefaultExpand::Closed, true));
    assert_eq!(events, vec![delimiter(ExpandableDelimiter::CollapsedArray, vec![])]);
    let mut store = ExpansionStore::new();
    let (events, _) = show(&array(vec![]), &mut store, config(DefaultExpand::Closed, false));
    assert_eq!(
        events,
        vec![
            delimiter(ExpandableDelimiter::OpeningArray, vec![]),
            empty(),
            delimiter(ExpandableDelimiter::ClosingArray, vec![]),
        ]
    );
}

#[test]
fn closed_root_shows_its_entries_on_one_line() {
    let mut store = ExpansionStore::new();
    let (events, response) = show(&sample(), &mut store, config(DefaultExpand::Closed, false));
    assert_eq!(
        events,
        vec![
            delimiter(ExpandableDelimiter::OpeningObject, vec![]),
            empty(),
            property("a", vec![key("a")], Some(id(vec![]))),
            colon(),
            value("1", vec![key("a")]),
            comma(),
            property("b", vec![key("b")], Some(id(vec![]))),
            colon(),
            root_delimiter(ExpandableDelimiter::CollapsedArray, vec![key("b")]),
            empty(),
            delimiter(ExpandableDelimiter::ClosingObject, vec![]),
        ]
    );
    assert_eq!(response.collapsing_state_ids.len(), 1);
    assert!(response.collapsing_state_ids.contains(&id(vec![])));
    assert_eq!(store.len(), 1);
    assert_eq!(store.get(&id(vec![])), Some(false));
    assert_eq!(store.get(&id(vec![key("b")])), None);
}

#[test]
fn closed_array_root_shows_values_without_their_places() {
    let document = array(vec![number("1"), array(vec![]), object(vec![("k", number("2"))])]);
    let mut store = ExpansionStore::new();
    let (events, _) = show(&document, &mut store, config(DefaultExpand::Closed, false));
    assert_eq!(
        events,
        vec![
            delimiter(ExpandableDelimiter::OpeningArray, vec![]),
            empty(),
            value("1", vec![index(0)]),
            comma(),
            root_delimiter(ExpandableDelimiter::CollapsedEmptyArray, vec![index(1)]),
            comma(),
            root_delimiter(ExpandableDelimiter::CollapsedObject, vec![index(2)]),
            empty(),
            delimiter(ExpandableDelimiter::ClosingArray, vec![]),
        ]
    );
}

#[test]
fn default_config_closes_every_node() {
    let mut store = ExpansionStore::new();
    let (events, response) = show(&sample(), &mut store, JsonTreeConfig::default());
    assert_eq!(events, vec![delimiter(ExpandableDelimiter::CollapsedObject, vec![])]);
    assert_eq!(response.collapsing_state_ids.len(), 1);
}

#[test]
fn search_opens_the_ancestors_of_the_match() {
    let mut store = ExpansionStore::new();
    let (events, response) =
        show(&sample(), &mut store, config(DefaultExpand::SearchResults("2"), false));
    assert_eq!(response.collapsing_state_ids.len(), 2);
    assert!(response.collapsing_state_ids.contains(&id(vec![])));
    assert!(response.collapsing_state_ids.contains(&id(vec![key("b")])));
    assert_eq!(store.get(&id(vec![])), Some(true));
    assert_eq!(store.get(&id(vec![key("b")])), Some(true));
    assert_eq!(events.len(), 13);
    assert_eq!(events[0], delimiter(ExpandableDelimiter::OpeningObject, vec![]));
    assert_eq!(events[7], delimiter(ExpandableDelimiter::OpeningArray, vec![key("b")]));
    assert_eq!(events[8], value("2", vec![key("b"), index(0)]));
    assert_eq!(events[10], value("3", vec![key("b"), index(1)]));

    // A front end highlights the values in which the term occurs.
    let term = SearchTerm::parse("2").unwrap();
    let highlighted: Vec<&str> = events
        .iter()
        .filter_map(|event| match event {
            RenderEvent::Value { display_value, .. } if term.matches(display_value) => {
                Some(display_value.as_str())
            }
            _ => None,
        })
        .collect();
    assert_eq!(highlighted, vec!["2"]);
}

#[test]
fn search_without_a_match_leaves_every_node_closed() {
    let mut store = ExpansionStore::new();
    let (events, response) =
        show(&sample(), &mut store, config(DefaultExpand::SearchResults("9"), true));
    assert_eq!(events, vec![delimiter(ExpandableDelimiter::CollapsedObject, vec![])]);
    assert_eq!(response.collapsing_state_ids.len(), 1);
}

#[test]
fn empty_search_text_opens_nothing() {
    let mut store = ExpansionStore::new();
    let (events, response) =
        show(&sample(), &mut store, config(DefaultExpand::SearchResults(""), true));
    assert_eq!(events, vec![delimiter(ExpandableDelimiter::CollapsedObject, vec![])]);
    assert_eq!(response.collapsing_state_ids.len(), 1);
}

#[test]
fn all_closed_meets_the_root_only() {
    for depth in 1..6 {
        let mut store = ExpansionStore::new();
        let (_, response) = show(&nested(depth), &mut store, config(DefaultExpand::Closed, false));
        assert_eq!(response.collapsing_state_ids.len(), 1);
        assert!(response.collapsing_state_ids.contains(&id(vec![])));
    }
}

#[test]
fn atomic_root_meets_no_node() {
    let mut store = ExpansionStore::new();
    let (events, response) = show(&number("5"), &mut store, config(DefaultExpand::All, false));
    assert_eq!(events, vec![value("5", vec![])]);
    assert_eq!(response.collapsing_state_ids.len(), 0);
    assert_eq!(store.len(), 0);
}

#[test]
fn to_level_opens_nodes_up_to_the_level() {
    for level in 0..5u8 {
        let mut store = ExpansionStore::new();
        let _ = show(&nested(6), &mut store, config(DefaultExpand::ToLevel(level), false));
        let mut path = Vec::new();
        for depth in 0..6usize {
            let expected = if depth <= level as usize + 1 {
                Some(depth <= level as usize)
            } else {
                None
            };
            assert_eq!(store.get(&id(path.clone())), expected, "level {level} depth {depth}");
            path.push(index(0));
        }
    }
}

#[test]
fn to_level_zero_opens_the_root_and_closes_its_entries() {
    let mut store = ExpansionStore::new();
    let (events, response) = show(&sample(), &mut store, config(DefaultExpand::ToLevel(0), false));
    assert_eq!(
        events,
        vec![
            delimiter(ExpandableDelimiter::OpeningObject, vec![]),
            property("a", vec![key("a")], None),
            colon(),
            value("1", vec![key("a")]),
            comma(),
            property("b", vec![key("b")], Some(id(vec![key("b")]))),
            colon(),
            delimiter(ExpandableDelimiter::CollapsedArray, vec![key("b")]),
            delimiter(ExpandableDelimiter::ClosingObject, vec![]),
        ]
    );
    assert_eq!(response.collapsing_state_ids.len(), 2);
}

#[test]
fn open_node_with_n_entries_has_n_minus_one_commas() {
    let document = object(vec![
        ("a", number("1")),
        ("b", number("2")),
        ("c", number("3")),
        ("d", number("4")),
    ]);
    let mut store = ExpansionStore::new();
    let (events, _) = show(&document, &mut store, config(DefaultExpand::All, false));
    assert_eq!(commas_in(&events), 3);
    assert_ne!(events[1], comma());
    assert_ne!(events[events.len() - 2], comma());
}

#[test]
fn openings_and_closings_match() {
    let document = object(vec![
        ("a", array(vec![array(vec![]), object(vec![("x", nested(3))])])),
        ("b", object(vec![])),
    ]);
    let mut store = ExpansionStore::new();
    let (events, _) = show(&document, &mut store, config(DefaultExpand::All, false));
    let mut open: Vec<(bool, JsonPointer)> = Vec::new();
    for event in &events {
        if let RenderEvent::ExpandableDelimiter { delimiter, pointer, .. } = event {
            match delimiter {
                ExpandableDelimiter::OpeningArray => open.push((true, pointer.clone())),
                ExpandableDelimiter::OpeningObject => open.push((false, pointer.clone())),
                ExpandableDelimiter::ClosingArray => {
                    assert_eq!(open.pop(), Some((true, pointer.clone())))
                }
                ExpandableDelimiter::ClosingObject => {
                    assert_eq!(open.pop(), Some((false, pointer.clone())))
                }
                _ => unreachable!(),
            }
        }
    }
    assert!(open.is_empty());
}

#[test]
fn open_array_labels_its_expandable_entries_by_their_place() {
    let document = array(vec![array(vec![number("1")]), number("2"), object(vec![])]);
    let mut store = ExpansionStore::new();
    let (events, response) = show(&document, &mut store, config(DefaultExpand::All, false));
    assert_eq!(
        events,
        vec![
            delimiter(ExpandableDelimiter::OpeningArray, vec![]),
            RenderEvent::Property {
                property: index(0),
                pointer: pointer(vec![index(0)]),
                collapsing_state: Some(id(vec![index(0)])),
            },
            colon(),
            delimiter(ExpandableDelimiter::OpeningArray, vec![index(0)]),
            value("1", vec![index(0), index(0)]),
            delimiter(ExpandableDelimiter::ClosingArray, vec![index(0)]),
            comma(),
            value("2", vec![index(1)]),
            comma(),
            RenderEvent::Property {
                property: index(2),
                pointer: pointer(vec![index(2)]),
                collapsing_state: Some(id(vec![index(2)])),
            },
            colon(),
            delimiter(ExpandableDelimiter::OpeningObject, vec![index(2)]),
            delimiter(ExpandableDelimiter::ClosingObject, vec![index(2)]),
            delimiter(ExpandableDelimiter::ClosingArray, vec![]),
        ]
    );
    assert_eq!(response.collapsing_state_ids.len(), 3);
}

#[test]
fn open_empty_nodes_have_no_comma() {
    let mut store = ExpansionStore::new();
    let (events, _) = show(&array(vec![]), &mut store, config(DefaultExpand::All, false));
    assert_eq!(
        events,
        vec![
            delimiter(ExpandableDelimiter::OpeningArray, vec![]),
            delimiter(ExpandableDelimiter::ClosingArray, vec![]),
        ]
    );
}

#[test]
fn closed_empty_node_has_its_own_delimiter() {
    let document = object(vec![("e", object(vec![])), ("f", array(vec![]))]);
    let mut store = ExpansionStore::new();
    let (events, _) = show(&document, &mut store, config(DefaultExpand::ToLevel(0), false));
    assert_eq!(
        events[3],
        delimiter(ExpandableDelimiter::CollapsedEmptyObject, vec![key("e")])
    );
    assert_eq!(events[7], delimiter(ExpandableDelimiter::CollapsedEmptyArray, vec![key("f")]));
}

#[test]
fn closed_root_never_reaches_below_its_entries() {
    for depth in 2..8 {
        let document = object(vec![("deep", nested(depth)), ("flat", number("1"))]);
        let mut store = ExpansionStore::new();
        let (events, response) = show(&document, &mut store, config(DefaultExpand::Closed, false));
        assert_eq!(events.len(), 3 + 4 * 2);
        assert!(events.iter().all(|event| depth_of(event) <= 1));
        assert_eq!(response.collapsing_state_ids.len(), 1);
        assert_eq!(store.len(), 1);

        let mut store = ExpansionStore::new();
        let (events, _) = show(&document, &mut store, config(DefaultExpand::Closed, true));
        assert_eq!(events.len(), 1);
    }
}

#[test]
fn second_pass_repeats_the_first() {
    for default_expand in [
        DefaultExpand::All,
        DefaultExpand::Closed,
        DefaultExpand::ToLevel(1),
        DefaultExpand::SearchResults("3"),
    ] {
        let document = object(vec![("a", sample()), ("b", nested(3))]);
        let mut store = ExpansionStore::new();
        let (first, first_response) = show(&document, &mut store, config(default_expand, false));
        let remembered = store.len();
        let (second, second_response) = show(&document, &mut store, config(default_expand, false));
        assert_eq!(first, second);
        assert_eq!(store.len(), remembered);
        assert_eq!(
            first_response.collapsing_state_ids.len(),
            second_response.collapsing_state_ids.len()
        );
        for id in first_response.collapsing_state_ids.ids() {
            assert!(second_response.collapsing_state_ids.contains(id));
        }
    }
}

#[test]
fn what_is_remembered_wins_over_the_default() {
    let mut store = ExpansionStore::new();
    let _ = show(&sample(), &mut store, config(DefaultExpand::All, false));
    assert_eq!(store.toggle(&id(vec![key("b")])), Some(false));
    let (events, response) = show(&sample(), &mut store, config(DefaultExpand::All, false));
    assert_eq!(events.len(), 9);
    assert_eq!(events[7], delimiter(ExpandableDelimiter::CollapsedArray, vec![key("b")]));
    assert_eq!(response.collapsing_state_ids.len(), 2);

    // The default of another pass changes nothing about a remembered node.
    let (events, _) = show(&sample(), &mut store, config(DefaultExpand::Closed, false));
    assert_eq!(events.len(), 9);
}

#[test]
fn forgetting_the_response_lets_the_new_default_in() {
    let mut store = ExpansionStore::new();
    let (_, response) = show(&sample(), &mut store, config(DefaultExpand::All, true));
    assert_eq!(store.len(), 2);
    response.reset_expanded(&mut store);
    assert_eq!(store.len(), 0);
    let (events, _) = show(&sample(), &mut store, config(DefaultExpand::Closed, true));
    assert_eq!(events, vec![delimiter(ExpandableDelimiter::CollapsedObject, vec![])]);
}

#[test]
fn the_path_is_restored_after_each_entry() {
    let document = object(vec![
        ("b", array(vec![array(vec![number("2")]), number("3")])),
        ("c", number("4")),
    ]);
    let mut store = ExpansionStore::new();
    let (events, _) = show(&document, &mut store, config(DefaultExpand::All, false));
    assert!(events.contains(&value("2", vec![key("b"), index(0), index(0)])));
    assert!(events.contains(&value("3", vec![key("b"), index(1)])));
    assert!(events.contains(&property("c", vec![key("c")], None)));
    assert!(events.contains(&value("4", vec![key("c")])));
    assert_eq!(events.last(), Some(&delimiter(ExpandableDelimiter::ClosingObject, vec![])));
}

#[test]
fn entries_under_one_key_share_one_identity() {
    let document = object(vec![("k", array(vec![number("1")])), ("k", array(vec![]))]);
    let mut store = ExpansionStore::new();
    let (events, response) = show(&document, &mut store, config(DefaultExpand::All, false));
    assert_eq!(response.collapsing_state_ids.len(), 2);
    assert_eq!(store.len(), 2);
    assert_eq!(commas_in(&events), 1);
}

#[test]
fn trees_keep_their_nodes_apart() {
    let here = identifier_for(1, &vec![key("a")]);
    let there = identifier_for(2, &vec![key("a")]);
    let again = identifier_for(1, &vec![key("a")]);
    let other = identifier_for(1, &vec![key("b")]);
    let place = identifier_for(1, &vec![index(0)]);
    assert!(here.same(&again));
    assert!(!here.same(&there));
    assert!(!here.same(&other));
    assert!(!here.same(&place));
    assert!(!here.same(&identifier_for(1, &vec![])));
    assert_eq!(here, again);
    assert_eq!(here.pointer.len(), 1);
    assert_eq!(JsonPointer::root().len(), 0);
}

#[test]
fn renderer_records_calls_in_order() {
    let mut renderer = JsonTreeRenderer::new();
    assert_eq!(renderer.len(), 0);
    renderer.render_property(&key("a"), pointer(vec![key("a")]), None);
    renderer.render_spacing_delimiter(SpacingDelimiter::Colon);
    renderer.render_value(&"1".to_string(), BaseValueType::Number, pointer(vec![key("a")]));
    renderer.render_expandable_delimiter(ExpandableDelimiter::CollapsedArray, pointer(vec![]), id(vec![]));
    assert_eq!(renderer.len(), 4);
    assert_eq!(
        renderer.events(),
        &vec![
            property("a", vec![key("a")], None),
            colon(),
            value("1", vec![key("a")]),
            delimiter(ExpandableDelimiter::CollapsedArray, vec![]),
        ]
    );
}

#[test]
fn values_know_whether_they_expand() {
    assert!(sample().is_expandable());
    assert!(array(vec![]).is_expandable());
    assert!(!number("1").is_expandable());
}

#[test]
fn open_nodes_take_a_row_for_each_marker_and_each_entry() {
    let mut store = ExpansionStore::new();
    let (events, _) = show(&sample(), &mut store, config(DefaultExpand::All, false));
    let rows = egui_json_tree::layout::rows(&events);
    let expected: Vec<(usize, usize, usize, Option<usize>)> = vec![
        (0, 1, 0, Some(0)),
        (1, 5, 1, None),
        (5, 8, 1, Some(7)),
        (8, 10, 2, None),
        (10, 11, 2, None),
        (11, 12, 1, None),
        (12, 13, 0, None),
    ];
    assert_eq!(rows.len(), expected.len());
    for (row, (start, end, depth, node_marker)) in rows.iter().zip(expected) {
        assert_eq!((row.start, row.end, row.depth, row.node_marker), (start, end, depth, node_marker));
    }
}

#[test]
fn closed_root_takes_one_row() {
    let mut store = ExpansionStore::new();
    let (events, _) = show(&sample(), &mut store, config(DefaultExpand::Closed, false));
    let rows = egui_json_tree::layout::rows(&events);
    assert_eq!(rows.len(), 1);
    assert_eq!((rows[0].start, rows[0].end, rows[0].depth), (0, 11, 0));
    assert_eq!(rows[0].node_marker, Some(0));

    let mut store = ExpansionStore::new();
    let (events, _) = show(&sample(), &mut store, config(DefaultExpand::Closed, true));
    let rows = egui_json_tree::layout::rows(&events);
    assert_eq!(rows.len(), 1);
    assert_eq!((rows[0].start, rows[0].end, rows[0].depth), (0, 1, 0));
}

#[test]
fn no_calls_make_no_rows() {
    assert!(egui_json_tree::layout::rows(&Vec::new()).is_empty());
}

#[test]
fn comma_after_a_closing_marker_stays_on_its_row() {
    let document = array(vec![array(vec![number("1")]), number("2")]);
    let mut store = ExpansionStore::new();
    let (events, _) = show(&document, &mut store, config(DefaultExpand::All, false));
    // [ | 0: [ | 1 | ] , | 2 | ]
    let rows = egui_json_tree::layout::rows(&events);
    let shape: Vec<(usize, usize, usize)> =
        rows.iter().map(|row| (row.start, row.end, row.depth)).collect();
    assert_eq!(shape, vec![(0, 1, 0), (1, 4, 1), (4, 5, 2), (5, 7, 1), (7, 8, 1), (8, 9, 0)]);
    assert_eq!(events[6], comma());
}

#[test]
fn rows_of_stray_closing_markers_are_not_set_in() {
    let events = vec![
        delimiter(ExpandableDelimiter::ClosingArray, vec![]),
        delimiter(ExpandableDelimiter::ClosingArray, vec![]),
        value("1", vec![]),
    ];
    let rows = egui_json_tree::layout::rows(&events);
    let shape: Vec<(usize, usize, usize)> =
        rows.iter().map(|row| (row.start, row.end, row.depth)).collect();
    assert_eq!(shape, vec![(0, 1, 0), (1, 3, 0)]);
    assert_eq!(rows[0].node_marker, None);
    assert_eq!(rows[1].node_marker, None);
}

#[test]
fn rows_are_set_in_by_the_depth_of_what_they_show() {
    let document = object(vec![
        ("a", array(vec![array(vec![]), object(vec![("x", nested(3))])])),
        ("b", object(vec![])),
        ("c", number("1")),
    ]);
    for default_expand in [DefaultExpand::All, DefaultExpand::ToLevel(1), DefaultExpand::Closed] {
        for abbreviate_root in [false, true] {
            let mut store = ExpansionStore::new();
            let (events, _) = show(&document, &mut store, config(default_expand, abbreviate_root));
            let rows = egui_json_tree::layout::rows(&events);
            assert_eq!(rows.first().map(|row| row.start), Some(0));
            assert_eq!(rows.last().map(|row| row.end), Some(events.len()));
            for row in &rows {
                assert_eq!(row.depth, depth_of(&events[row.start]));
            }
        }
    }
}

#[test]
fn nothing_below_a_closed_node_is_met() {
    let document = object(vec![(
        "a",
        object(vec![("b", object(vec![("c", array(vec![]))])), ("d", array(vec![]))]),
    )]);
    let mut store = ExpansionStore::new();
    let (_, response) = show(&document, &mut store, config(DefaultExpand::All, false));
    assert_eq!(response.collapsing_state_ids.len(), 5);

    assert_eq!(store.toggle(&id(vec![key("a"), key("b")])), Some(false));
    let (events, response) = show(&document, &mut store, config(DefaultExpand::All, false));
    assert_eq!(response.collapsing_state_ids.len(), 4);
    assert!(response.collapsing_state_ids.contains(&id(vec![])));
    assert!(response.collapsing_state_ids.contains(&id(vec![key("a")])));
    assert!(response.collapsing_state_ids.contains(&id(vec![key("a"), key("b")])));
    assert!(response.collapsing_state_ids.contains(&id(vec![key("a"), key("d")])));
    assert!(!response.collapsing_state_ids.contains(&id(vec![key("a"), key("b"), key("c")])));
    assert!(events.iter().all(|event| depth_of(event) <= 2));

    assert_eq!(store.toggle(&id(vec![key("a")])), Some(false));
    let (_, response) = show(&document, &mut store, config(DefaultExpand::All, false));
    assert_eq!(response.collapsing_state_ids.len(), 2);
}
