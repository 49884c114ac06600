//! The closed set of conversion failures. Every encoder aborts on the
//! first error; nothing is retried and no partial output is produced.

use vstd::prelude::*;

verus! {

/// A fatal conversion error.
#[derive(Debug, Clone, Copy, PartialEq, Eq, Structural)]
pub enum SaturnError {
    /// A required tileset property (`palette_bank` or `pnd_size`) is absent.
    MissingProperty,
    /// A required tileset property exists but cannot be read as a number.
    InvalidPropertyValue,
    /// A bit depth other than 4, 8 or 11 was asked of the pattern packer.
    UnsupportedBpp,
    /// A tileset's tile size is neither 8x8 nor 16x16.
    UnsupportedTileSize,
    /// A tile layer references a tileset whose tile size fits no page size.
    UnsupportedTileSizeForLayer,
    /// A tileset image is not an exact multiple of the tile size, or its
    /// pixel data stops short of a tile block.
    MalformedImageDimensions,
    /// A tile layer has no populated cell, or its populated cells
    /// reference more than one tileset.
    MixedTilesetError,
    /// An image layer's dimensions are not 512/1024 by 256/512, or it has
    /// no image at all.
    InvalidImageDimensions,
    /// A color table is empty or holds more than 2048 distinct colors.
    ColorTableOverflow,
    /// A segment count does not fit the header's 8-bit count field.
    CountOverflow,
}

} // verus!
