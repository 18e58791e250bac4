//! A real-time 2D-grid raycasting renderer: given a tile-based world (walls,
//! windows, doors, floor sprites) and a camera pose, it produces a pixel
//! buffer depicting a pseudo-3D first-person view.
//!
//! All geometry runs on fixed-point numbers (`fx::Fx`, 16 fractional bits),
//! so every stage of the pipeline — grid traversal, hit collection, depth
//! sorting, strip compositing and work scheduling — carries an exact
//! contract.

pub mod fx;
pub mod fx_range;
pub mod id;
pub mod mat2;
pub mod random;
pub mod render;
pub mod raycast;
pub mod texture;
pub mod threading;
pub mod world;
