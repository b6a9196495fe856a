//! An in-memory tree of a directory hierarchy, with explicit failures for
//! symlinks, special files and paths without a textual base name.
//!
//! `tree` builds the tree from what was observed of a whole hierarchy; `walk`
//! builds it one observation at a time, asking its caller which object to
//! observe next. `model` and `walk_model` give both their meaning, and
//! `theorems` states what the builder guarantees.

pub mod model;
pub mod theorems;
pub mod tree;
pub mod walk;
pub mod walk_model;
