//! The decisions behind an editor's scene tree pane, kept apart from the
//! engine that draws it.
//!
//! The engine owns the scene and the widgets. What this crate owns is the part
//! that can be reasoned about on plain values: how a hierarchy of entities is
//! projected into a collapsible tree, which entity is selected after a click,
//! whether a tile is folded, and whether the editor is attached at start-up.
//! Entities are carried as the 64 bits that identify them.

pub mod launch;
pub mod refresh;
pub mod scene;
pub mod selection;
pub mod tile;
pub mod tree;
