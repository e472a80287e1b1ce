//! Core data structures of a bot simulator: typed identifiers, the part tree
//! that describes how a bot is assembled, and the per-tick simulation frame.

pub mod assets;
pub mod botdef;
pub mod error;
pub mod event_loop;
pub mod file_tree;
pub mod frame;
pub mod fresh;
pub mod heightmap_phy;
pub mod id;
pub mod input_state;
pub mod mobile;
pub mod part;
pub mod part_codec;
pub mod part_tree;
pub mod tree_codec;
pub mod tree_edits;
pub mod tree_laws;
pub mod tree_model;
pub mod unit_editor;
pub mod wire;
