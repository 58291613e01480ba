//! Verified core of a bridge between the Godot engine and the Bevy ECS.

use vstd::prelude::*;

pub mod audio;
pub mod collisions;
pub mod input;
pub mod logging;
pub mod node_tree_view;
pub mod scene_tree;
pub mod signals;
pub mod text;
pub mod transforms;

verus! {

/// The plugin that sets up the Godot integration: the default Godot plugins.
#[derive(Debug, Clone, Copy, Default)]
pub struct GodotPlugin;

} // verus!
