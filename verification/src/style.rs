//! How a tree looks: its colours and the two switches that change its layout.

use vstd::prelude::*;
use egui::Color32;
use crate::value::BaseValueType;

verus! {

/// `egui::Color32`, a colour. The library hands colours on and never looks
/// into one.
#[verifier::external_type_specification]
#[verifier::external_body]
pub struct ExColor32(Color32);

/// The four channels that a colour stores: red, green and blue, each already
/// multiplied by the opacity, and then the opacity.
pub uninterp spec fn color_channels(color: Color32) -> Seq<u8>;

/// `Color32::from_rgb` builds an opaque colour: it stores the three channels
/// as they are given, and 255 for the opacity.
pub assume_specification[ Color32::from_rgb ](r: u8, g: u8, b: u8) -> (color: Color32)
    ensures
        color_channels(color) == seq![r, g, b, 255u8],
;

/// `Color32::from_rgba_premultiplied` stores the four channels as they are
/// given.
pub assume_specification[ Color32::from_rgba_premultiplied ](r: u8, g: u8, b: u8, a: u8) -> (color:
    Color32)
    ensures
        color_channels(color) == seq![r, g, b, a],
;

/// Whether the buttons that open and close a node are drawn, and whether
/// they react.
#[derive(Debug, Clone, Copy, PartialEq, Eq, Structural)]
pub enum ToggleButtonsState {
    VisibleEnabled,
    VisibleDisabled,
    Hidden,
}

/// How far an entry is set in from the node that holds it.
#[derive(Debug, Clone, Copy, PartialEq, Eq, Structural)]
pub enum ChildIndent {
    /// No further than the body of its parent already is.
    Inline,
    /// By half the room that a button takes.
    Half,
    /// By the room that a button takes.
    Full,
}

impl ToggleButtonsState {
    /// `None` where no button is drawn; else whether the button reacts.
    pub fn enabled(&self) -> (enabled: Option<bool>)
        ensures
            enabled == match *self {
                ToggleButtonsState::VisibleEnabled => Some(true),
                ToggleButtonsState::VisibleDisabled => Some(false),
                ToggleButtonsState::Hidden => None::<bool>,
            },
    {
        match self {
            ToggleButtonsState::VisibleEnabled => Some(true),
            ToggleButtonsState::VisibleDisabled => Some(false),
            ToggleButtonsState::Hidden => None,
        }
    }

    /// How far to set in an entry. An expandable entry brings a button of
    /// its own and needs no room; any other entry is set in by the room of
    /// the button it lacks. Without buttons every entry is set in by half
    /// that room.
    pub fn child_indent(&self, child_is_expandable: bool) -> (indent: ChildIndent)
        ensures
            indent == if *self == ToggleButtonsState::Hidden {
                ChildIndent::Half
            } else if child_is_expandable {
                ChildIndent::Inline
            } else {
                ChildIndent::Full
            },
    {
        match self {
            ToggleButtonsState::Hidden => ChildIndent::Half,
            _ => if child_is_expandable {
                ChildIndent::Inline
            } else {
                ChildIndent::Full
            },
        }
    }
}

impl Default for ToggleButtonsState {
    fn default() -> (state: Self)
        ensures
            state == ToggleButtonsState::VisibleEnabled,
    {
        ToggleButtonsState::VisibleEnabled
    }
}

/// Contains coloring parameters for JSON syntax highlighting and search
/// match highlighting, and the layout switches of the tree.
#[derive(Debug, Clone, Copy)]
pub struct JsonTreeStyle {
    pub object_key_color: Color32,
    pub array_idx_color: Color32,
    pub null_color: Color32,
    pub bool_color: Color32,
    pub number_color: Color32,
    pub string_color: Color32,
    pub highlight_color: Color32,
    /// Whether a closed root is drawn as one marker, with none of its
    /// entries. Where it is not, a closed root shows its entries on one line.
    pub abbreviate_root: bool,
    pub toggle_buttons_state: ToggleButtonsState,
}

impl Default for JsonTreeStyle {
    fn default() -> (style: Self)
        ensures
            color_channels(style.object_key_color) == seq![161u8, 206u8, 235u8, 255u8],
            color_channels(style.array_idx_color) == seq![96u8, 103u8, 168u8, 255u8],
            color_channels(style.null_color) == seq![103u8, 154u8, 209u8, 255u8],
            color_channels(style.bool_color) == seq![103u8, 154u8, 209u8, 255u8],
            color_channels(style.number_color) == seq![181u8, 199u8, 166u8, 255u8],
            color_channels(style.string_color) == seq![194u8, 146u8, 122u8, 255u8],
            color_channels(style.highlight_color) == seq![72u8, 72u8, 72u8, 50u8],
            style.abbreviate_root,
            style.toggle_buttons_state == ToggleButtonsState::VisibleEnabled,
    {
        JsonTreeStyle {
            object_key_color: Color32::from_rgb(161, 206, 235),
            array_idx_color: Color32::from_rgb(96, 103, 168),
            null_color: Color32::from_rgb(103, 154, 209),
            bool_color: Color32::from_rgb(103, 154, 209),
            number_color: Color32::from_rgb(181, 199, 166),
            string_color: Color32::from_rgb(194, 146, 122),
            highlight_color: Color32::from_rgba_premultiplied(72, 72, 72, 50),
            abbreviate_root: true,
            toggle_buttons_state: ToggleButtonsState::VisibleEnabled,
        }
    }
}

impl JsonTreeStyle {
    /// The colour in which a value of the given type is drawn.
    pub fn get_color(&self, base_value_type: &BaseValueType) -> (color: Color32)
        ensures
            color == match *base_value_type {
                BaseValueType::Null => self.null_color,
                BaseValueType::Bool => self.bool_color,
                BaseValueType::Number => self.number_color,
                BaseValueType::String => self.string_color,
            },
    {
        match base_value_type {
            BaseValueType::Null => self.null_color,
            BaseValueType::Bool => self.bool_color,
            BaseValueType::Number => self.number_color,
            BaseValueType::String => self.string_color,
        }
    }
}

} // verus!
