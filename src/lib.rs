//! Particle-world core of a falling-sand sandbox: a dense cell grid backed by a
//! stable-handle particle store, the element catalog, and the brush rasterizer
//! that turns pointer gestures into particle creation and removal.

pub mod dyn_store;
pub mod input;
pub mod render;
pub mod sand;
pub mod util;
