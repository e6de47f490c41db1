//! Layout, routing, classification and pixel logic of the renderer.

pub mod geometry;
pub mod routing;
pub mod fit;
pub mod classify;
pub mod palette;
pub mod dirty;
pub mod fx;
pub mod frame;
pub mod fb;
pub mod sim_store;
pub mod glyph;
pub mod world;
pub mod scene;
pub mod scene_text;
pub mod frame_loop;
pub mod sprites;
pub mod bodies;
pub mod spill;
pub mod overlay;
pub mod laws;

use vstd::prelude::*;

verus! {

/// Width of the internal render frame; the world is twice as wide.
pub const RENDER_W: u32 = 640;

/// Height of the internal render frame; the world is twice as high.
pub const RENDER_H: u32 = 360;

} // verus!
