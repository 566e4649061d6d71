//! Selector language for UI trees: parsing, matching and element lookup.

pub mod text;
pub mod tree;
pub mod selector;
pub mod grammar;
pub mod parser;
pub mod laws;
pub mod ui_element;
pub mod device;

pub use device::{element_center, format_adb_error, scroll_swipe};
pub use selector::{AttrClause, AttrOp, Selector};
pub use tree::UiTree;
pub use ui_element::{
    find_elements, find_elements_with_descendants, is_element_visible, parse_bounds, UiElement,
};
