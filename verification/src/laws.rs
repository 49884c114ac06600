//! Format-wide guarantees, stated once and proved against the encoders'
//! own specifications.

use vstd::prelude::*;

use crate::bitmap_layer::SaturnBitmapLayer;
use crate::collisions::lemma_points_bytes_len;
use crate::collisions::SaturnCollision;
use crate::errors::SaturnError;
use crate::layer::layer_matches;
use crate::layer::spec_transparency;
use crate::layer::tile_grids;
use crate::layer::SaturnLayer;
use crate::map::bitmaps_ser;
use crate::map::layers_ser;
use crate::map::lemma_bitmaps_ser_len;
use crate::map::lemma_layers_ser_len;
use crate::map::lemma_tilesets_ser_len;
use crate::map::tilesets_ser;
use crate::map::SaturnMap;
use crate::model::any_populated;
use crate::model::LayerInput;
use crate::model::TilesetInput;
use crate::tileset::spec_noc;
use crate::tileset::spec_table;
use crate::tileset::spec_tileset_bpp;
use crate::tileset::spec_tileset_err;
use crate::tileset::spec_tileset_ok;
use crate::tileset::SaturnTileset;

verus! {

/// A color table of 1 to 16 colors selects a 16-color palette at 4bpp;
/// 17 to 256 a 256-color palette at 8bpp; 257 to 1024 an 11bpp palette
/// of 1024 colors; 1025 to 2048 an 11bpp palette of 2048 colors.
pub proof fn lemma_color_depth_buckets(input: TilesetInput)
    requires
        1 <= spec_table(input.pixels).len() <= 2048,
    ensures
        spec_table(input.pixels).len() <= 16 ==> spec_noc(input) == 16 && spec_tileset_bpp(input)
            == 4,
        17 <= spec_table(input.pixels).len() <= 256 ==> spec_noc(input) == 256
            && spec_tileset_bpp(input) == 8,
        257 <= spec_table(input.pixels).len() <= 1024 ==> spec_noc(input) == 1024
            && spec_tileset_bpp(input) == 11,
        1025 <= spec_table(input.pixels).len() ==> spec_noc(input) == 2048 && spec_tileset_bpp(
            input,
        ) == 11,
{
}

/// A tileset whose color table is empty or holds more than 2048 colors
/// fails, and with a color-table overflow before any other error.
pub proof fn lemma_color_table_overflow(input: TilesetInput)
    requires
        spec_table(input.pixels).len() == 0 || spec_table(input.pixels).len() > 2048,
    ensures
        !spec_tileset_ok(input),
        spec_tileset_err(input) == SaturnError::ColorTableOverflow,
{
}

/// A tileset's palette byte length is always its palette size times
/// its palette word size: the palette fills its whole hardware bucket.
pub proof fn lemma_palette_fills_bucket(t: SaturnTileset, input: TilesetInput)
    requires
        crate::tileset::tileset_matches(t, input),
        spec_tileset_ok(input),
    ensures
        t.palette@.len() == t.number_of_colors * (
        if t.words_per_palette == 1 {
            2int
        } else {
            4int
        }),
{
    let colors = crate::tileset::padded_table(
        spec_table(input.pixels),
        spec_noc(input) as int,
    );
    assert(colors.len() == spec_noc(input));
    crate::color_table::lemma_words16_len(colors);
    crate::color_table::lemma_words32_len(colors);
}

/// A tileset segment's size field equals its exact serialized byte
/// length, the size field itself included.
pub proof fn lemma_tileset_size_exact(t: SaturnTileset)
    requires
        t.wf(),
    ensures
        t.ser().len() == t.tileset_size,
{
}

/// A layer segment's size field equals its exact serialized byte
/// length, the size field itself included.
pub proof fn lemma_layer_size_exact(l: SaturnLayer)
    requires
        l.wf(),
    ensures
        l.ser().len() == l.layer_size,
{
}

/// A bitmap layer segment's size field equals its exact serialized byte
/// length, the size field itself included.
pub proof fn lemma_bitmap_layer_size_exact(l: SaturnBitmapLayer)
    requires
        l.wf(),
    ensures
        l.ser().len() == l.layer_size,
{
}

/// A collision cell's size field equals its exact serialized byte
/// length, the size field itself included.
pub proof fn lemma_collision_size_exact(c: SaturnCollision)
    requires
        c.wf(),
    ensures
        c.ser().len() == c.collision_size,
{
    lemma_points_bytes_len(c.points@);
}

/// In a well-formed map, consecutive header offsets differ by exactly
/// the serialized bytes of the segment group between them: layers
/// between the layer and bitmap-layer offsets, bitmap layers between
/// the bitmap-layer and collision offsets, tilesets before the layers.
pub proof fn lemma_header_offsets(m: SaturnMap)
    requires
        m.wf(),
    ensures
        m.header.layer_offset - m.header.tileset_offset == tilesets_ser(m.tilesets@).len(),
        m.header.bitmap_layer_offset - m.header.layer_offset == layers_ser(m.layers@).len(),
        m.header.collision_offset - m.header.bitmap_layer_offset == bitmaps_ser(
            m.bitmap_layers@,
        ).len(),
{
    lemma_tilesets_ser_len(m.tilesets@);
    lemma_layers_ser_len(m.layers@);
    lemma_bitmaps_ser_len(m.bitmap_layers@);
}

/// Every header offset points inside the serialized stream: the whole
/// output is exactly the collision offset plus the collision bytes.
pub proof fn lemma_map_total_len(m: SaturnMap)
    requires
        m.wf(),
    ensures
        m.ser().len() == m.header.collision_offset + crate::map::collisions_ser(
            m.collisions@,
        ).len(),
{
    lemma_tilesets_ser_len(m.tilesets@);
    lemma_layers_ser_len(m.layers@);
    lemma_bitmaps_ser_len(m.bitmap_layers@);
}

/// Transparency is never enabled for the first processed layer, and is
/// enabled for a later layer exactly when some strictly earlier tile
/// layer holds any populated cell.
pub proof fn lemma_transparency(
    layers: Seq<LayerInput>,
    encoded: Seq<SaturnLayer>,
    tilesets: Seq<SaturnTileset>,
    k: int,
)
    requires
        encoded.len() == tile_grids(layers).len(),
        forall|j: int|
            0 <= j < encoded.len() ==> layer_matches(
                #[trigger] encoded[j],
                tile_grids(layers)[j],
                tilesets,
                spec_transparency(tile_grids(layers), j),
            ),
        0 <= k < encoded.len(),
    ensures
        k == 0 ==> !encoded[0].tile_transparency_enabled,
        encoded[k].tile_transparency_enabled <==> exists|j: int|
            0 <= j < k && any_populated(#[trigger] tile_grids(layers)[j].cells@),
{
    assert(layer_matches(
        encoded[k],
        tile_grids(layers)[k],
        tilesets,
        spec_transparency(tile_grids(layers), k),
    ));
}

} // verus!
