//! The abstract map model the encoders consume.
//!
//! The map-description parser and the bitmap pixel decoder are external
//! collaborators: they deliver plain values (dimensions, properties,
//! 24-bit colors packed as `0x00RRGGBB`, palette indices) through these
//! types, and every encoder works on them alone.

use vstd::prelude::*;

verus! {

/// A custom property attached to a tileset in the source map.
pub enum PropVal {
    /// An integer property.
    IntValue(i32),
    /// A textual property, read as a decimal number.
    StringValue(String),
    /// A property of any other kind.
    Other,
}

/// The decoded pixels of a tileset's source bitmap.
pub enum PixelSource {
    /// Direct-color pixels, row-major, each `0x00RRGGBB`.
    Direct { pixels: Vec<u32> },
    /// An indexed bitmap: its palette in source order (each entry
    /// `0x00RRGGBB`), and one palette index per pixel, row-major.
    Indexed { palette: Vec<u32>, indices: Vec<u32> },
}

/// One tileset of the source map, with its decoded bitmap.
pub struct TilesetInput {
    /// Width of one tile in pixels.
    pub tile_width: u32,
    /// Height of one tile in pixels.
    pub tile_height: u32,
    /// Number of tiles in the tileset.
    pub tile_count: u32,
    /// Width of the source bitmap in pixels.
    pub image_width: u32,
    /// Height of the source bitmap in pixels.
    pub image_height: u32,
    /// The `palette_bank` custom property, if present.
    pub palette_bank: Option<PropVal>,
    /// The `pnd_size` custom property (palette word size), if present.
    pub pnd_size: Option<PropVal>,
    /// The decoded pixels of the source bitmap.
    pub pixels: PixelSource,
}

/// A collision object attached to a tile, with coordinates already
/// rounded to 8-bit values (they are tile-local).
pub enum ObjectShape {
    /// An axis-aligned rectangle.
    Rect { x: u8, y: u8, width: u8, height: u8 },
    /// Any other shape; the collision extractor skips it.
    OtherShape,
}

/// One populated cell of a tile layer.
pub struct TileCell {
    /// Local id of the tile within its tileset.
    pub tile_id: u32,
    /// Position of the referenced tileset in the map's tileset list.
    pub tileset_index: usize,
    /// Horizontal flip flag.
    pub flip_h: bool,
    /// Vertical flip flag.
    pub flip_v: bool,
    /// Diagonal flip flag.
    pub flip_d: bool,
    /// Collision objects attached to the referenced tile, in source order.
    pub objects: Vec<ObjectShape>,
}

/// A tile layer: a row-major grid of optional cells.
pub struct TileGrid {
    /// Layer id from the source map.
    pub id: u32,
    /// Layer width in tiles.
    pub width: u32,
    /// Layer height in tiles.
    pub height: u32,
    /// `width * height` cells, row-major; `None` is an empty cell.
    pub cells: Vec<Option<TileCell>>,
}

/// The decoded image of an image layer.
pub struct BitmapImage {
    /// Image width in pixels.
    pub width: u32,
    /// Image height in pixels.
    pub height: u32,
    /// Row-major pixels, each `0x00RRGGBB`.
    pub pixels: Vec<u32>,
}

/// One layer of the source map, a closed tagged variant.
pub enum LayerInput {
    /// A grid tile layer.
    Tiles { grid: TileGrid },
    /// An image layer; `None` when the source layer names no image.
    Image { id: u32, image: Option<BitmapImage> },
    /// An object or group layer; every encoder ignores it.
    OtherKind,
}

/// The whole source map.
pub struct MapInput {
    /// Map width in tiles.
    pub width: u32,
    /// Map height in tiles.
    pub height: u32,
    /// Tilesets in source order; pattern-name ids are rebased on this order.
    pub tilesets: Vec<TilesetInput>,
    /// Layers in processing order.
    pub layers: Vec<LayerInput>,
}

impl TileGrid {
    /// The grid really is `width * height` cells.
    pub open spec fn wf(&self) -> bool {
        self.cells@.len() == self.width * self.height
    }

    /// The cell at tile coordinates `(x, y)`.
    pub open spec fn cell_at(&self, x: int, y: int) -> Option<TileCell> {
        self.cells@[y * self.width + x]
    }
}

/// Does any cell of the grid hold a tile?
pub open spec fn any_populated(cells: Seq<Option<TileCell>>) -> bool {
    exists|i: int| 0 <= i < cells.len() && cells[i] is Some
}

} // verus!
