//! The state logic of the level editor: selection, transform gizmo modes,
//! dialogs, the scene file and autosave settings, the hierarchy panel and its
//! rows, the asset browser's search and folder tree, placement, duplication, group
//! naming and the choice of the player's spawn point. Entities are
//! identified by their 64-bit ids.

pub mod asset_tree;
pub mod assets;
pub mod dialogs;
pub mod duplication;
pub mod gizmo;
pub mod grouping;
pub mod hierarchy;
pub mod inspector;
pub mod outline;
pub mod persistence;
pub mod placement;
pub mod primitives;
pub mod selection;
pub mod spawn;
pub mod text;
