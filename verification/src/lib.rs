//! A headless engine for showing a JSON-shaped value as a collapsible tree.
//!
//! The engine walks a [`value::JsonTreeValue`], decides for every expandable
//! node whether it is open, and records the render calls that a front end
//! has to make, in order. Which nodes are open is remembered in an
//! [`store::ExpansionStore`] from one pass to the next; a node that is met
//! for the first time is open or closed as the
//! [`expand::DefaultExpand`] of the pass has it.
//!
//! [`model`] states what a pass produces as a function of the document, the
//! settings and the store. [`node`] holds the walk, which is proved to
//! produce exactly that. [`laws`], [`bracketing`], [`search`] and
//! [`search_laws`] prove what follows for every document: a second pass
//! repeats the first, a closed node hides all that lies below it, the calls
//! read like bracketed notation, a search opens exactly the ancestors of its
//! matches, and no match stays hidden. [`layout`] sorts the calls into rows
//! for a front end to draw, and [`layout_laws`] proves that each row is set
//! in by the depth of what it shows.

pub mod bracketing;
pub mod delimiters;
pub mod expand;
pub mod id_set;
pub mod laws;
pub mod layout;
pub mod layout_laws;
pub mod model;
pub mod node;
pub mod pointer;
pub mod render;
pub mod response;
pub mod search;
pub mod search_laws;
pub mod store;
pub mod style;
pub mod tree;
pub mod value;

pub use crate::expand::DefaultExpand;
pub use crate::style::JsonTreeStyle;
pub use crate::style::ToggleButtonsState;
