//! Isometric scene renderer: a static world image built once from tiles and
//! objects, plus a per-frame compositor for moving sprites and their shadows.
//!
//! Everything is integer arithmetic. Pixels are packed ARGB words, shadow
//! strengths are bytes out of 255, and the positions of the camera and of
//! moving entities are integers in units of 1/256 pixel ([`camera::SUBPIXEL`]).
//! Shading factors are kept as fractions and products are rounded down.
//!
//! - [`color`]: packed pixels, dimming and blending of channels.
//! - [`grid`]: row-major indexing of pixel buffers.
//! - [`atlas`]: the texture atlas, an image and its named frames.
//! - [`gamemap`]: tiles and objects of the static map.
//! - [`camera`]: the viewport and sub-pixel coordinates.
//! - [`depth`]: the stable painter's order of items by depth key.
//! - [`blit`]: the copies of one frame into a buffer, each stated per pixel.
//! - [`pass`]: lists of placed frames drawn one after the other.
//! - [`scene`]: the camera's window on the world and where items stand.
//! - [`render`]: the renderer itself, building the world and composing frames.
//! - [`input`]: the keyboard state shared between two threads.

pub mod atlas;
pub mod blit;
pub mod camera;
pub mod color;
pub mod depth;
pub mod gamemap;
pub mod grid;
pub mod input;
pub mod pass;
pub mod render;
pub mod scene;

pub use atlas::{Atlas, AtlasImage, Frame};
pub use camera::Camera;
pub use gamemap::{GameMap, Object, Tile};
pub use render::{Render, RenderError, RenderableEntity};
