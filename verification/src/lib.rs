//! Core of a live-object inspector: reflective traversal of structured
//! values into display rows, durable field paths, an edit-widget state
//! machine, and a path-addressed write-back engine with numeric coercion.
//!
//! Values carried through the edit pipeline are exact scaled decimals
//! ([`num::Num`]); the host application converts its native numeric
//! representations at the boundary.

pub mod num;
pub mod num_text;
pub mod path;
pub mod semantic_names;
pub mod store;
pub mod text;
pub mod traversal;
pub mod value;
pub mod widget;
pub mod writeback;

pub use num::Num;
