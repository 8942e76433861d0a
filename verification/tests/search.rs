use egui_json_tree::id_set::NodeIdSet;
use egui_json_tree::pointer::JsonPointer;
use egui_json_tree::pointer::JsonPointerSegment;
use egui_json_tree::pointer::NodeId;
use egui_json_tree::search::SearchTerm;
use egui_json_tree::value::BaseValueType;
use egui_json_tree::value::ExpandableType;
use egui_json_tree::value::JsonTreeValue;

fn at(segments: Vec<JsonPointerSegment>) -> NodeId {
    NodeId { tree: 3, pointer: JsonPointer { segments } }
}

fn name(text: &str) -> JsonPointerSegment {
    JsonPointerSegment::Key(text.to_string())
}

fn text(value: &str) -> JsonTreeValue {
    JsonTreeValue::Base(value.to_string(), BaseValueType::String)
}

/// {"a": 1, "b": [2, 3]}
fn small() -> JsonTreeValue {
    JsonTreeValue::Expandable(
        vec![
            (name("a"), JsonTreeValue::Base("1".to_string(), BaseValueType::Number)),
            (
                name("b"),
                JsonTreeValue::Expandable(
                    vec![
                        (
                            JsonPointerSegment::Index(0),
                            JsonTreeValue::Base("2".to_string(), BaseValueType::Number),
                        ),
                        (
                            JsonPointerSegment::Index(1),
                            JsonTreeValue::Base("3".to_string(), BaseValueType::Number),
                        ),
                    ],
                    ExpandableType::Array,
                ),
            ),
        ],
        ExpandableType::Object,
    )
}

fn opened(term: &str, value: &JsonTreeValue) -> (NodeIdSet, NodeIdSet) {
    let mut reset = NodeIdSet::new();
    let found = SearchTerm::parse(term).unwrap().find_matching_paths_in(value, 3, &mut reset);
    (found, reset)
}

#[test]
fn empty_text_is_no_search_term() {
    assert!(SearchTerm::parse("").is_none());
    assert!(SearchTerm::parse(" ").is_some());
    assert!(SearchTerm::parse("a").is_some());
}

#[test]
fn term_matches_where_it_occurs() {
    let term = SearchTerm::parse("2").unwrap();
    assert!(term.matches("2"));
    assert!(!term.matches("3"));
    assert!(term.matches("123"));
    assert!(!term.matches(""));
    let term = SearchTerm::parse("lo w").unwrap();
    assert!(term.matches("hello world"));
    assert!(!term.matches("helloworld"));
    assert!(!term.matches("lo"));
    assert!(term.matches("lo w"));
    assert!(term.matches("xlo w"));
    assert!(term.matches("lo wx"));
}

#[test]
fn term_matches_without_regard_to_ascii_case() {
    let term = SearchTerm::parse("HeLLo").unwrap();
    assert!(term.matches("hello"));
    assert!(term.matches("say HELLO"));
    assert!(!term.matches("hell"));
    let term = SearchTerm::parse("z[").unwrap();
    assert!(term.matches("Z["));
    assert!(!term.matches("z{"));
    assert!(!term.matches("Z{"));
    let term = SearchTerm::parse("@a").unwrap();
    assert!(term.matches("@A"));
    assert!(!term.matches("`a"));
    let term = SearchTerm::parse("é").unwrap();
    assert!(term.matches("café"));
    assert!(!term.matches("cafÉ"));
}

#[test]
fn only_keys_of_objects_match_as_labels() {
    let term = SearchTerm::parse("b").unwrap();
    assert!(term.matches_label(ExpandableType::Object, &name("abc")));
    assert!(!term.matches_label(ExpandableType::Object, &name("xyz")));
    assert!(!term.matches_label(ExpandableType::Array, &name("abc")));
    let term = SearchTerm::parse("1").unwrap();
    assert!(!term.matches_label(ExpandableType::Object, &JsonPointerSegment::Index(1)));
    assert!(!term.matches_label(ExpandableType::Array, &JsonPointerSegment::Index(1)));
}

#[test]
fn search_for_a_value_opens_its_ancestors() {
    let (found, reset) = opened("2", &small());
    assert_eq!(found.len(), 2);
    assert!(found.contains(&at(vec![])));
    assert!(found.contains(&at(vec![name("b")])));
    assert!(!found.contains(&at(vec![name("b"), JsonPointerSegment::Index(0)])));
    assert_eq!(reset.len(), 2);
    assert!(reset.contains(&at(vec![])));
    assert!(reset.contains(&at(vec![name("b")])));
}

#[test]
fn search_for_a_top_level_value_opens_the_root() {
    let (found, _) = opened("1", &small());
    assert_eq!(found.len(), 1);
    assert!(found.contains(&at(vec![])));
}

#[test]
fn search_for_a_key_opens_down_to_its_parent() {
    let document = JsonTreeValue::Expandable(
        vec![(
            name("outer"),
            JsonTreeValue::Expandable(
                vec![(name("Needle"), JsonTreeValue::Expandable(vec![], ExpandableType::Array))],
                ExpandableType::Object,
            ),
        )],
        ExpandableType::Object,
    );
    let (found, _) = opened("needle", &document);
    assert_eq!(found.len(), 2);
    assert!(found.contains(&at(vec![])));
    assert!(found.contains(&at(vec![name("outer")])));
    assert!(!found.contains(&at(vec![name("outer"), name("Needle")])));
}

#[test]
fn search_does_not_look_at_places_in_arrays() {
    let document = JsonTreeValue::Expandable(
        vec![
            (JsonPointerSegment::Index(0), text("x")),
            (name("0"), text("y")),
        ],
        ExpandableType::Array,
    );
    let (found, reset) = opened("0", &document);
    assert_eq!(found.len(), 0);
    assert_eq!(reset.len(), 0);
}

#[test]
fn search_without_a_match_opens_nothing() {
    let (found, reset) = opened("9", &small());
    assert_eq!(found.len(), 0);
    assert_eq!(reset.len(), 0);
    let (found, _) = opened("1", &text("1"));
    assert_eq!(found.len(), 0);
}

#[test]
fn search_adds_to_what_the_reset_set_holds() {
    let mut reset = NodeIdSet::new();
    reset.insert(at(vec![name("kept")]));
    let found = SearchTerm::parse("3").unwrap().find_matching_paths_in(&small(), 3, &mut reset);
    assert_eq!(found.len(), 2);
    assert_eq!(reset.len(), 3);
    assert!(reset.contains(&at(vec![name("kept")])));
}
