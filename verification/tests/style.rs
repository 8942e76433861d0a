use egui::Color32;
use egui_json_tree::delimiters::ExpandableDelimiter;
use egui_json_tree::delimiters::ExpandableDelimiters;
use egui_json_tree::delimiters::SpacingDelimiter;
use egui_json_tree::expand::DefaultExpand;
use egui_json_tree::style::ChildIndent;
use egui_json_tree::style::JsonTreeStyle;
use egui_json_tree::style::ToggleButtonsState;
use egui_json_tree::value::BaseValueType;
use egui_json_tree::value::ExpandableType;

#[test]
fn default_style_has_the_documented_colors() {
    let style = JsonTreeStyle::default();
    assert_eq!(style.object_key_color.to_array(), [161, 206, 235, 255]);
    assert_eq!(style.array_idx_color.to_array(), [96, 103, 168, 255]);
    assert_eq!(style.null_color.to_array(), [103, 154, 209, 255]);
    assert_eq!(style.bool_color.to_array(), [103, 154, 209, 255]);
    assert_eq!(style.number_color.to_array(), [181, 199, 166, 255]);
    assert_eq!(style.string_color.to_array(), [194, 146, 122, 255]);
    assert_eq!(style.highlight_color.to_array(), [72, 72, 72, 50]);
    assert!(style.abbreviate_root);
    assert_eq!(style.toggle_buttons_state, ToggleButtonsState::VisibleEnabled);
}

#[test]
fn get_color_picks_the_color_of_the_type() {
    let style = JsonTreeStyle::default();
    assert_eq!(style.get_color(&BaseValueType::Null), Color32::from_rgb(103, 154, 209));
    assert_eq!(style.get_color(&BaseValueType::Bool), Color32::from_rgb(103, 154, 209));
    assert_eq!(style.get_color(&BaseValueType::Number), Color32::from_rgb(181, 199, 166));
    assert_eq!(style.get_color(&BaseValueType::String), Color32::from_rgb(194, 146, 122));
}

#[test]
fn get_color_follows_a_changed_style() {
    let mut style = JsonTreeStyle::default();
    style.null_color = Color32::from_rgb(1, 2, 3);
    style.bool_color = Color32::from_rgb(4, 5, 6);
    style.number_color = Color32::from_rgb(7, 8, 9);
    style.string_color = Color32::from_rgba_premultiplied(10, 11, 12, 13);
    assert_eq!(style.get_color(&BaseValueType::Null).to_array(), [1, 2, 3, 255]);
    assert_eq!(style.get_color(&BaseValueType::Bool).to_array(), [4, 5, 6, 255]);
    assert_eq!(style.get_color(&BaseValueType::Number).to_array(), [7, 8, 9, 255]);
    assert_eq!(style.get_color(&BaseValueType::String).to_array(), [10, 11, 12, 13]);
}

#[test]
fn toggle_buttons_say_whether_they_react() {
    assert_eq!(ToggleButtonsState::VisibleEnabled.enabled(), Some(true));
    assert_eq!(ToggleButtonsState::VisibleDisabled.enabled(), Some(false));
    assert_eq!(ToggleButtonsState::Hidden.enabled(), None);
    assert_eq!(ToggleButtonsState::default(), ToggleButtonsState::VisibleEnabled);
}

#[test]
fn entries_are_set_in_by_the_room_of_the_button_they_lack() {
    assert_eq!(ToggleButtonsState::VisibleEnabled.child_indent(true), ChildIndent::Inline);
    assert_eq!(ToggleButtonsState::VisibleEnabled.child_indent(false), ChildIndent::Full);
    assert_eq!(ToggleButtonsState::VisibleDisabled.child_indent(true), ChildIndent::Inline);
    assert_eq!(ToggleButtonsState::VisibleDisabled.child_indent(false), ChildIndent::Full);
    assert_eq!(ToggleButtonsState::Hidden.child_indent(true), ChildIndent::Half);
    assert_eq!(ToggleButtonsState::Hidden.child_indent(false), ChildIndent::Half);
}

#[test]
fn delimiters_have_their_text() {
    assert_eq!(ExpandableDelimiter::CollapsedArray.as_str(), "[...]");
    assert_eq!(ExpandableDelimiter::CollapsedEmptyArray.as_str(), "[]");
    assert_eq!(ExpandableDelimiter::OpeningArray.as_str(), "[");
    assert_eq!(ExpandableDelimiter::ClosingArray.as_str(), "]");
    assert_eq!(ExpandableDelimiter::CollapsedObject.as_str(), "{...}");
    assert_eq!(ExpandableDelimiter::CollapsedEmptyObject.as_str(), "{}");
    assert_eq!(ExpandableDelimiter::OpeningObject.as_str(), "{");
    assert_eq!(ExpandableDelimiter::ClosingObject.as_str(), "}");
    assert_eq!(SpacingDelimiter::Empty.as_str(), "");
    assert_eq!(SpacingDelimiter::Comma.as_str(), ", ");
    assert_eq!(SpacingDelimiter::Colon.as_str(), ": ");
}

#[test]
fn each_kind_has_its_own_delimiters() {
    let array = ExpandableDelimiters::for_type(ExpandableType::Array);
    assert_eq!(array.opening, ExpandableDelimiter::OpeningArray);
    assert_eq!(array.closing, ExpandableDelimiter::ClosingArray);
    assert_eq!(array.collapsed_for(0), ExpandableDelimiter::CollapsedEmptyArray);
    assert_eq!(array.collapsed_for(1), ExpandableDelimiter::CollapsedArray);
    let object = ExpandableDelimiters::for_type(ExpandableType::Object);
    assert_eq!(object.opening, ExpandableDelimiter::OpeningObject);
    assert_eq!(object.closing, ExpandableDelimiter::ClosingObject);
    assert_eq!(object.collapsed_for(0), ExpandableDelimiter::CollapsedEmptyObject);
    assert_eq!(object.collapsed_for(7), ExpandableDelimiter::CollapsedObject);
}

#[test]
fn default_expand_closes_every_node() {
    assert!(matches!(DefaultExpand::default(), DefaultExpand::Closed));
}
