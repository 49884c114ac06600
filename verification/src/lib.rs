//! Encoder for Sega Saturn VDP2 map resources.
//!
//! Converts an abstract 2D tile-map model (tile layers, image layers,
//! tilesets with indexed or direct-color pixels, per-tile collision
//! rectangles) into a single offset-addressed big-endian binary blob
//! understood by a fixed-function 2D graphics coprocessor.

pub mod bitmap_layer;
pub mod bytes;
pub mod collisions;
pub mod color_table;
pub mod errors;
pub mod laws;
pub mod layer;
pub mod map;
pub mod model;
pub mod props;
pub mod tileset;
