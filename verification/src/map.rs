//! Map assembly: header construction, offset computation, and the
//! ordered concatenation of all segments.
//!
//! The output is laid out big-endian as: header, then tilesets, layers,
//! bitmap layers and collision cells, in that fixed order. Each header
//! offset is the byte position of its segment group, computed only
//! after every segment size is known.

use vstd::prelude::*;

use crate::bitmap_layer::bitmap_matches;
use crate::bitmap_layer::image_layers;
use crate::bitmap_layer::spec_bitmap_ok;
use crate::bitmap_layer::SaturnBitmapLayer;
use crate::bytes::push_u32_be;
use crate::bytes::u32_be;
use crate::collisions::collision_matches;
use crate::collisions::final_rect;
use crate::collisions::SaturnCollision;
use crate::color_table::lemma_words16_len;
use crate::color_table::lemma_words32_len;
use crate::errors::SaturnError;
use crate::layer::grid_bounded;
use crate::layer::grid_tsidx16;
use crate::layer::layer_matches;
use crate::layer::lemma_pnd_total_len;
use crate::layer::spec_layer_ok;
use crate::layer::spec_page_size;
use crate::layer::spec_transparency;
use crate::layer::sum_tile_counts;
use crate::layer::tile_grids;
use crate::layer::uni_tileset;
use crate::layer::SaturnLayer;
use crate::model::any_populated;
use crate::model::BitmapImage;
use crate::model::LayerInput;
use crate::model::MapInput;
use crate::model::TileGrid;
use crate::model::TilesetInput;
use crate::tileset::lemma_pattern_total_len;
use crate::tileset::spec_indices;
use crate::tileset::spec_table;
use crate::tileset::spec_tile_size;
use crate::tileset::spec_tileset_bpp;
use crate::tileset::spec_tileset_err;
use crate::tileset::spec_tileset_ok;
use crate::tileset::tileset_input_bounded;
use crate::tileset::tileset_matches;
use crate::tileset::SaturnTileset;

verus! {

/// The magic number opening every map of this format revision.
pub const MAP_MAGIC: u32 = 0x894D4150;

/// The format revision.
pub const MAP_VERSION: u32 = 4;

/// Serialized length of the header.
pub const HEADER_LEN: u32 = 35;

/// The map header, with every offset frozen.
#[derive(Debug, PartialEq, Eq)]
pub struct SaturnMapHeader {
    /// Magic number.
    pub magic: u32,
    /// Format revision.
    pub version: u32,
    /// Map width in tiles.
    pub width: u32,
    /// Map height in tiles.
    pub height: u32,
    /// Number of tileset segments.
    pub tileset_count: u8,
    /// Byte offset of the first tileset segment.
    pub tileset_offset: u32,
    /// Number of layer segments.
    pub layer_count: u8,
    /// Byte offset of the first layer segment.
    pub layer_offset: u32,
    /// Number of bitmap layer segments.
    pub bitmap_layer_count: u8,
    /// Byte offset of the first bitmap layer segment.
    pub bitmap_layer_offset: u32,
    /// Byte offset of the collision table.
    pub collision_offset: u32,
}

impl SaturnMapHeader {
    /// The serialized byte stream of the header.
    pub open spec fn ser(&self) -> Seq<u8> {
        u32_be(self.magic) + u32_be(self.version) + u32_be(self.width) + u32_be(self.height)
            + seq![self.tileset_count] + u32_be(self.tileset_offset) + seq![self.layer_count]
            + u32_be(self.layer_offset) + seq![self.bitmap_layer_count] + u32_be(
            self.bitmap_layer_offset,
        ) + u32_be(self.collision_offset)
    }

    /// Appends the serialized header.
    pub fn write_into(&self, out: &mut Vec<u8>)
        ensures
            final(out)@ == old(out)@ + self.ser(),
            self.ser().len() == HEADER_LEN,
    {
        push_u32_be(out, self.magic);
        push_u32_be(out, self.version);
        push_u32_be(out, self.width);
        push_u32_be(out, self.height);
        out.push(self.tileset_count);
        push_u32_be(out, self.tileset_offset);
        out.push(self.layer_count);
        push_u32_be(out, self.layer_offset);
        out.push(self.bitmap_layer_count);
        push_u32_be(out, self.bitmap_layer_offset);
        push_u32_be(out, self.collision_offset);
        assert(out@ =~= old(out)@ + self.ser());
    }

    /// Builds the header from the final segment sizes: each offset is
    /// the header length plus every earlier segment group's bytes.
    pub fn new(
        width: u32,
        height: u32,
        tileset_count: u8,
        tilesets_size: u32,
        layer_count: u8,
        layers_size: u32,
        bitmap_layer_count: u8,
        bitmap_layers_size: u32,
    ) -> (r: Self)
        requires
            HEADER_LEN + tilesets_size + layers_size + bitmap_layers_size <= u32::MAX,
        ensures
            r.magic == MAP_MAGIC,
            r.version == MAP_VERSION,
            r.width == width,
            r.height == height,
            r.tileset_count == tileset_count,
            r.tileset_offset == HEADER_LEN,
            r.layer_count == layer_count,
            r.layer_offset == HEADER_LEN + tilesets_size,
            r.bitmap_layer_count == bitmap_layer_count,
            r.bitmap_layer_offset == HEADER_LEN + tilesets_size + layers_size,
            r.collision_offset == HEADER_LEN + tilesets_size + layers_size + bitmap_layers_size,
    {
        SaturnMapHeader {
            magic: MAP_MAGIC,
            version: MAP_VERSION,
            width,
            height,
            tileset_count,
            tileset_offset: HEADER_LEN,
            layer_count,
            layer_offset: HEADER_LEN + tilesets_size,
            bitmap_layer_count,
            bitmap_layer_offset: HEADER_LEN + tilesets_size + layers_size,
            collision_offset: HEADER_LEN + tilesets_size + layers_size + bitmap_layers_size,
        }
    }
}

/// The concatenated serialized bytes of a tileset list.
pub open spec fn tilesets_ser(s: Seq<SaturnTileset>) -> Seq<u8>
    decreases s.len(),
{
    if s.len() == 0 {
        Seq::empty()
    } else {
        tilesets_ser(s.drop_last()) + s.last().ser()
    }
}

/// The summed size fields of a tileset list.
pub open spec fn tilesets_sizes(s: Seq<SaturnTileset>) -> int
    decreases s.len(),
{
    if s.len() == 0 {
        0
    } else {
        tilesets_sizes(s.drop_last()) + s.last().tileset_size
    }
}

/// The concatenated serialized bytes of a layer list.
pub open spec fn layers_ser(s: Seq<SaturnLayer>) -> Seq<u8>
    decreases s.len(),
{
    if s.len() == 0 {
        Seq::empty()
    } else {
        layers_ser(s.drop_last()) + s.last().ser()
    }
}

/// The summed size fields of a layer list.
pub open spec fn layers_sizes(s: Seq<SaturnLayer>) -> int
    decreases s.len(),
{
    if s.len() == 0 {
        0
    } else {
        layers_sizes(s.drop_last()) + s.last().layer_size
    }
}

/// The concatenated serialized bytes of a bitmap layer list.
pub open spec fn bitmaps_ser(s: Seq<SaturnBitmapLayer>) -> Seq<u8>
    decreases s.len(),
{
    if s.len() == 0 {
        Seq::empty()
    } else {
        bitmaps_ser(s.drop_last()) + s.last().ser()
    }
}

/// The summed size fields of a bitmap layer list.
pub open spec fn bitmaps_sizes(s: Seq<SaturnBitmapLayer>) -> int
    decreases s.len(),
{
    if s.len() == 0 {
        0
    } else {
        bitmaps_sizes(s.drop_last()) + s.last().layer_size
    }
}

/// The concatenated serialized bytes of the collision table.
pub open spec fn collisions_ser(s: Seq<SaturnCollision>) -> Seq<u8>
    decreases s.len(),
{
    if s.len() == 0 {
        Seq::empty()
    } else {
        collisions_ser(s.drop_last()) + s.last().ser()
    }
}

/// A well-formed tileset list serializes to exactly its summed sizes.
pub proof fn lemma_tilesets_ser_len(s: Seq<SaturnTileset>)
    requires
        forall|i: int| 0 <= i < s.len() ==> (#[trigger] s[i]).wf(),
    ensures
        tilesets_ser(s).len() == tilesets_sizes(s),
        tilesets_sizes(s) >= 0,
    decreases s.len(),
{
    if s.len() > 0 {
        lemma_tilesets_ser_len(s.drop_last());
        assert(s.last().wf());
    }
}

/// A well-formed layer list serializes to exactly its summed sizes.
pub proof fn lemma_layers_ser_len(s: Seq<SaturnLayer>)
    requires
        forall|i: int| 0 <= i < s.len() ==> (#[trigger] s[i]).wf(),
    ensures
        layers_ser(s).len() == layers_sizes(s),
        layers_sizes(s) >= 0,
    decreases s.len(),
{
    if s.len() > 0 {
        lemma_layers_ser_len(s.drop_last());
        assert(s.last().wf());
    }
}

/// A well-formed bitmap layer list serializes to exactly its summed
/// sizes.
pub proof fn lemma_bitmaps_ser_len(s: Seq<SaturnBitmapLayer>)
    requires
        forall|i: int| 0 <= i < s.len() ==> (#[trigger] s[i]).wf(),
    ensures
        bitmaps_ser(s).len() == bitmaps_sizes(s),
        bitmaps_sizes(s) >= 0,
    decreases s.len(),
{
    if s.len() > 0 {
        lemma_bitmaps_ser_len(s.drop_last());
        assert(s.last().wf());
    }
}

/// The whole assembled map, ready to serialize.
#[derive(Debug, PartialEq, Eq)]
pub struct SaturnMap {
    /// The header, offsets frozen.
    pub header: SaturnMapHeader,
    /// Tileset segments, in source order.
    pub tilesets: Vec<SaturnTileset>,
    /// Pattern-name layer segments, in processing order.
    pub layers: Vec<SaturnLayer>,
    /// Bitmap layer segments, in processing order.
    pub bitmap_layers: Vec<SaturnBitmapLayer>,
    /// The collision table, row-major.
    pub collisions: Vec<SaturnCollision>,
}

impl SaturnMap {
    /// Every segment's size field is frozen to its serialized length.
    pub open spec fn segments_wf(&self) -> bool {
        &&& forall|i: int| 0 <= i < self.tilesets@.len() ==> (#[trigger] self.tilesets@[i]).wf()
        &&& forall|i: int| 0 <= i < self.layers@.len() ==> (#[trigger] self.layers@[i]).wf()
        &&& forall|i: int|
            0 <= i < self.bitmap_layers@.len() ==> (#[trigger] self.bitmap_layers@[i]).wf()
        &&& forall|i: int|
            0 <= i < self.collisions@.len() ==> (#[trigger] self.collisions@[i]).wf()
    }

    /// The header counts and offsets agree with the segments.
    pub open spec fn wf(&self) -> bool {
        &&& self.segments_wf()
        &&& self.header.magic == MAP_MAGIC
        &&& self.header.version == MAP_VERSION
        &&& self.header.tileset_count == self.tilesets@.len()
        &&& self.header.layer_count == self.layers@.len()
        &&& self.header.bitmap_layer_count == self.bitmap_layers@.len()
        &&& self.header.tileset_offset == HEADER_LEN
        &&& self.header.layer_offset == HEADER_LEN + tilesets_sizes(self.tilesets@)
        &&& self.header.bitmap_layer_offset == HEADER_LEN + tilesets_sizes(self.tilesets@)
            + layers_sizes(self.layers@)
        &&& self.header.collision_offset == HEADER_LEN + tilesets_sizes(self.tilesets@)
            + layers_sizes(self.layers@) + bitmaps_sizes(self.bitmap_layers@)
        &&& self.collisions@.len() == self.header.width * self.header.height
    }

    /// The serialized byte stream of the whole map.
    pub open spec fn ser(&self) -> Seq<u8> {
        self.header.ser() + tilesets_ser(self.tilesets@) + layers_ser(self.layers@) + bitmaps_ser(
            self.bitmap_layers@,
        ) + collisions_ser(self.collisions@)
    }

    /// Serializes the whole map: header, tilesets, layers, bitmap
    /// layers, collision cells, in that order.
    pub fn to_bytes(&self) -> (r: Vec<u8>)
        requires
            self.segments_wf(),
        ensures
            r@ == self.ser(),
    {
        let mut out: Vec<u8> = Vec::new();
        self.header.write_into(&mut out);
        let mut i: usize = 0;
        while i < self.tilesets.len()
            invariant
                i <= self.tilesets@.len(),
                self.segments_wf(),
                out@ == self.header.ser() + tilesets_ser(self.tilesets@.take(i as int)),
            decreases self.tilesets@.len() - i,
        {
            self.tilesets[i].write_into(&mut out);
            proof {
                assert(self.tilesets@.take(i as int + 1).drop_last() =~= self.tilesets@.take(
                    i as int,
                ));
            }
            i += 1;
        }
        proof {
            assert(self.tilesets@.take(self.tilesets@.len() as int) =~= self.tilesets@);
        }
        let mut i: usize = 0;
        while i < self.layers.len()
            invariant
                i <= self.layers@.len(),
                self.segments_wf(),
                out@ == self.header.ser() + tilesets_ser(self.tilesets@) + layers_ser(
                    self.layers@.take(i as int),
                ),
            decreases self.layers@.len() - i,
        {
            self.layers[i].write_into(&mut out);
            proof {
                assert(self.layers@.take(i as int + 1).drop_last() =~= self.layers@.take(
                    i as int,
                ));
            }
            i += 1;
        }
        proof {
            assert(self.layers@.take(self.layers@.len() as int) =~= self.layers@);
        }
        let mut i: usize = 0;
        while i < self.bitmap_layers.len()
            invariant
                i <= self.bitmap_layers@.len(),
                self.segments_wf(),
                out@ == self.header.ser() + tilesets_ser(self.tilesets@) + layers_ser(
                    self.layers@,
                ) + bitmaps_ser(self.bitmap_layers@.take(i as int)),
            decreases self.bitmap_layers@.len() - i,
        {
            self.bitmap_layers[i].write_into(&mut out);
            proof {
                assert(self.bitmap_layers@.take(i as int + 1).drop_last()
                    =~= self.bitmap_layers@.take(i as int));
            }
            i += 1;
        }
        proof {
            assert(self.bitmap_layers@.take(self.bitmap_layers@.len() as int)
                =~= self.bitmap_layers@);
        }
        let mut i: usize = 0;
        while i < self.collisions.len()
            invariant
                i <= self.collisions@.len(),
                self.segments_wf(),
                out@ == self.header.ser() + tilesets_ser(self.tilesets@) + layers_ser(
                    self.layers@,
                ) + bitmaps_ser(self.bitmap_layers@) + collisions_ser(
                    self.collisions@.take(i as int),
                ),
            decreases self.collisions@.len() - i,
        {
            self.collisions[i].write_into(&mut out);
            proof {
                assert(self.collisions@.take(i as int + 1).drop_last() =~= self.collisions@.take(
                    i as int,
                ));
            }
            i += 1;
        }
        proof {
            assert(self.collisions@.take(self.collisions@.len() as int) =~= self.collisions@);
        }
        out
    }
}

/// The summed truncated tile counts of the first `n` tileset inputs.
pub open spec fn sum_input_tile_counts(inputs: Seq<TilesetInput>, n: int) -> int
    decreases n,
{
    if n <= 0 {
        0
    } else {
        sum_input_tile_counts(inputs, n - 1) + (inputs[n - 1].tile_count as u16)
    }
}

/// Machine limits on the whole map input.
pub open spec fn map_input_bounded(input: MapInput) -> bool {
    &&& input.width <= 0x4000
    &&& input.height <= 0x4000
    &&& input.width * input.height <= 0x10_0000
    &&& forall|i: int|
        0 <= i < input.tilesets@.len() ==> tileset_input_bounded(#[trigger] input.tilesets@[i])
    &&& forall|i: int|
        0 <= i < input.layers@.len() ==> (#[trigger] input.layers@[i] matches LayerInput::Tiles {
            grid,
        } ==> (grid.wf() && grid.width == input.width && grid.height == input.height))
    &&& forall|i: int|
        0 <= i < input.layers@.len() ==> (#[trigger] input.layers@[i] matches LayerInput::Image {
            id,
            image,
        } ==> (image matches Some(b) ==> b.pixels@.len() <= 0x10_0000))
    &&& forall|i: int|
        0 <= i < input.layers@.len() ==> (#[trigger] input.layers@[i] matches LayerInput::Tiles {
            grid,
        } ==> ((any_populated(grid.cells@) && uni_tileset(grid.cells@)) ==> (grid_tsidx16(
            grid.cells@,
        ) as int) < input.tilesets@.len()))
    &&& sum_input_tile_counts(input.tilesets@, input.tilesets@.len() as int) <= 0xF000
}

/// Does a tileset input's tile size fit a page size?
pub open spec fn input_page_some(ti: TilesetInput) -> bool {
    (ti.tile_height == 16 && ti.tile_width == 16) || (ti.tile_height == 8 && ti.tile_width == 8)
}

/// Does encoding this grid succeed, judged from the map input alone?
pub open spec fn input_layer_ok(g: TileGrid, inputs: Seq<TilesetInput>) -> bool {
    &&& any_populated(g.cells@)
    &&& uni_tileset(g.cells@)
    &&& input_page_some(inputs[grid_tsidx16(g.cells@) as int])
}

/// The error encoding this grid runs into (meaningful when
/// `input_layer_ok` fails).
pub open spec fn input_layer_err(g: TileGrid) -> SaturnError {
    if !(any_populated(g.cells@) && uni_tileset(g.cells@)) {
        SaturnError::MixedTilesetError
    } else {
        SaturnError::UnsupportedTileSizeForLayer
    }
}

/// Does the whole conversion succeed?
pub open spec fn spec_map_ok(input: MapInput) -> bool {
    &&& forall|i: int|
        0 <= i < input.tilesets@.len() ==> spec_tileset_ok(#[trigger] input.tilesets@[i])
    &&& input.tilesets@.len() <= 255
    &&& forall|k: int|
        0 <= k < tile_grids(input.layers@).len() ==> input_layer_ok(
            #[trigger] tile_grids(input.layers@)[k],
            input.tilesets@,
        )
    &&& tile_grids(input.layers@).len() <= 255
    &&& forall|k: int|
        0 <= k < image_layers(input.layers@).len() ==> spec_bitmap_ok(
            #[trigger] image_layers(input.layers@)[k].1,
        )
    &&& image_layers(input.layers@).len() <= 255
}

/// A built map is exactly what the input prescribes.
pub open spec fn map_matches(m: SaturnMap, input: MapInput) -> bool {
    &&& m.wf()
    &&& m.header.width == input.width
    &&& m.header.height == input.height
    &&& m.tilesets@.len() == input.tilesets@.len()
    &&& forall|i: int|
        0 <= i < input.tilesets@.len() ==> tileset_matches(
            #[trigger] m.tilesets@[i],
            input.tilesets@[i],
        )
    &&& m.layers@.len() == tile_grids(input.layers@).len()
    &&& forall|k: int|
        0 <= k < tile_grids(input.layers@).len() ==> layer_matches(
            #[trigger] m.layers@[k],
            tile_grids(input.layers@)[k],
            m.tilesets@,
            spec_transparency(tile_grids(input.layers@), k),
        )
    &&& m.bitmap_layers@.len() == image_layers(input.layers@).len()
    &&& forall|k: int|
        0 <= k < image_layers(input.layers@).len() ==> bitmap_matches(
            #[trigger] m.bitmap_layers@[k],
            image_layers(input.layers@)[k].0,
            image_layers(input.layers@)[k].1,
        )
    &&& m.collisions@.len() == input.width * input.height
    &&& forall|x: int, y: int|
        0 <= x < input.width && 0 <= y < input.height ==> collision_matches(
            #[trigger] m.collisions@[y * input.width + x],
            final_rect(tile_grids(input.layers@), x, y),
        )
}

/// Truncated tile-count sums agree between inputs and their encodings.
proof fn lemma_sums_match(
    encoded: Seq<SaturnTileset>,
    inputs: Seq<TilesetInput>,
    n: int,
)
    requires
        encoded.len() == inputs.len(),
        forall|i: int| 0 <= i < inputs.len() ==> tileset_matches(#[trigger] encoded[i], inputs[i]),
        n <= inputs.len(),
    ensures
        sum_tile_counts(encoded, n) == sum_input_tile_counts(inputs, n),
    decreases n,
{
    if n > 0 {
        lemma_sums_match(encoded, inputs, n - 1);
    }
}

/// Every tile grid of a layer list satisfies what every tile layer of
/// the list satisfies.
proof fn lemma_tile_grids_all(layers: Seq<LayerInput>, p: spec_fn(TileGrid) -> bool)
    requires
        forall|i: int|
            0 <= i < layers.len() ==> (#[trigger] layers[i] matches LayerInput::Tiles { grid }
                ==> p(grid)),
    ensures
        forall|k: int| 0 <= k < tile_grids(layers).len() ==> p(#[trigger] tile_grids(layers)[k]),
    decreases layers.len(),
{
    if layers.len() > 0 {
        let dl = layers.drop_last();
        assert forall|i: int|
            0 <= i < dl.len() implies (#[trigger] dl[i] matches LayerInput::Tiles { grid } ==> p(
            grid,
        )) by {
            assert(dl[i] == layers[i]);
        }
        lemma_tile_grids_all(dl, p);
        let pre = tile_grids(dl);
        assert(layers[layers.len() - 1] == layers.last());
        match layers.last() {
            LayerInput::Tiles { grid } => {
                assert(p(grid));
                assert(tile_grids(layers) == pre.push(grid));
                assert forall|k: int|
                    0 <= k < tile_grids(layers).len() implies p(
                    #[trigger] tile_grids(layers)[k],
                ) by {
                    if k < pre.len() {
                        assert(tile_grids(layers)[k] == pre[k]);
                    } else {
                        assert(tile_grids(layers)[k] == grid);
                    }
                }
            },
            _ => {
                assert(tile_grids(layers) == pre);
            },
        }
    }
}

/// Every image layer of a layer list satisfies what every image layer
/// of the list satisfies.
proof fn lemma_image_layers_all(
    layers: Seq<LayerInput>,
    p: spec_fn(u32, Option<BitmapImage>) -> bool,
)
    requires
        forall|i: int|
            0 <= i < layers.len() ==> (#[trigger] layers[i] matches LayerInput::Image {
                id,
                image,
            } ==> p(id, image)),
    ensures
        forall|k: int|
            0 <= k < image_layers(layers).len() ==> p(
                (#[trigger] image_layers(layers)[k]).0,
                image_layers(layers)[k].1,
            ),
    decreases layers.len(),
{
    if layers.len() > 0 {
        let dl = layers.drop_last();
        assert forall|i: int|
            0 <= i < dl.len() implies (#[trigger] dl[i] matches LayerInput::Image { id, image }
                ==> p(id, image)) by {
            assert(dl[i] == layers[i]);
        }
        lemma_image_layers_all(dl, p);
        let pre = image_layers(dl);
        assert(layers[layers.len() - 1] == layers.last());
        match layers.last() {
            LayerInput::Image { id, image } => {
                assert(p(id, image));
                assert(image_layers(layers) == pre.push((id, image)));
                assert forall|k: int|
                    0 <= k < image_layers(layers).len() implies p(
                    (#[trigger] image_layers(layers)[k]).0,
                    image_layers(layers)[k].1,
                ) by {
                    if k < pre.len() {
                        assert(image_layers(layers)[k] == pre[k]);
                    } else {
                        assert(image_layers(layers)[k] == (id, image));
                    }
                }
            },
            _ => {
                assert(image_layers(layers) == pre);
            },
        }
    }
}

/// A successfully encoded tileset's segment stays small: its palette
/// holds at most 2048 words and its pattern at most two bytes per pixel.
proof fn lemma_tileset_size_bound(t: SaturnTileset, input: TilesetInput)
    requires
        tileset_matches(t, input),
        spec_tileset_ok(input),
        tileset_input_bounded(input),
    ensures
        t.tileset_size <= 0x21_0000,
{
    let colors = crate::tileset::padded_table(
        spec_table(input.pixels),
        crate::tileset::spec_noc(input) as int,
    );
    assert(colors.len() <= 2048);
    lemma_words16_len(colors);
    lemma_words32_len(colors);
    let ts = spec_tile_size(input.tile_width, input.tile_height)->0;
    lemma_pattern_total_len(
        spec_indices(input.pixels),
        input.image_width as int,
        input.image_height as int,
        ts as int,
        spec_tileset_bpp(input),
    );
}

/// A successfully encoded layer's segment stays small: at most four
/// pattern-name bytes per grid cell.
proof fn lemma_layer_size_bound(
    l: SaturnLayer,
    g: TileGrid,
    tilesets: Seq<SaturnTileset>,
    transp: bool,
)
    requires
        layer_matches(l, g, tilesets, transp),
        grid_bounded(g),
        g.width * g.height <= 0x10_0000,
        (grid_tsidx16(g.cells@) as int) < tilesets.len(),
        spec_page_size(tilesets[grid_tsidx16(g.cells@) as int]) is Some,
    ensures
        l.layer_size <= 0x41_0000,
{
    let ts = tilesets[grid_tsidx16(g.cells@) as int];
    lemma_pnd_total_len(
        g.cells@,
        g.width as int,
        g.height as int,
        spec_page_size(ts).unwrap() as int,
        ts.words_per_palette,
        ts.bpp,
        sum_tile_counts(tilesets, grid_tsidx16(g.cells@) as int) as u16,
    );
    assert(4 * (g.width as int * g.height as int) <= 0x40_0000);
}

/// A successfully encoded bitmap layer's segment stays small: two
/// bytes per pixel.
proof fn lemma_bitmap_size_bound(l: SaturnBitmapLayer, id: u32, img: Option<BitmapImage>)
    requires
        bitmap_matches(l, id, img),
        img matches Some(b) ==> b.pixels@.len() <= 0x10_0000,
    ensures
        l.layer_size <= 0x41_0000,
{
    let b = img.unwrap();
    lemma_words16_len(b.pixels@);
}

impl SaturnMap {
    /// Runs the whole conversion: encodes every tileset, every tile
    /// layer, every image layer and the collision table, then freezes
    /// the header's counts and offsets. Any failure aborts the whole
    /// conversion; a segment count over 255 overflows the header.
    pub fn build(input: &MapInput, words_per_palette: u8) -> (r: Result<SaturnMap, SaturnError>)
        requires
            map_input_bounded(*input),
            words_per_palette == 1,
        ensures
            r is Ok <==> spec_map_ok(*input),
            r matches Ok(m) ==> map_matches(m, *input),
            r matches Err(e) ==> {
                ||| (exists|k: int|
                    0 <= k < input.tilesets@.len() && !spec_tileset_ok(
                        #[trigger] input.tilesets@[k],
                    ) && e == spec_tileset_err(input.tilesets@[k]) && (forall|j: int|
                        0 <= j < k ==> spec_tileset_ok(input.tilesets@[j])))
                ||| ((forall|i: int|
                    0 <= i < input.tilesets@.len() ==> spec_tileset_ok(
                        #[trigger] input.tilesets@[i],
                    )) && input.tilesets@.len() > 255 && e == SaturnError::CountOverflow)
                ||| ((forall|i: int|
                    0 <= i < input.tilesets@.len() ==> spec_tileset_ok(
                        #[trigger] input.tilesets@[i],
                    )) && input.tilesets@.len() <= 255 && (exists|k: int|
                    0 <= k < tile_grids(input.layers@).len() && !input_layer_ok(
                        #[trigger] tile_grids(input.layers@)[k],
                        input.tilesets@,
                    ) && e == input_layer_err(tile_grids(input.layers@)[k]) && (forall|j: int|
                        0 <= j < k ==> input_layer_ok(tile_grids(input.layers@)[j], input.tilesets@))))
                ||| ((forall|i: int|
                    0 <= i < input.tilesets@.len() ==> spec_tileset_ok(
                        #[trigger] input.tilesets@[i],
                    )) && input.tilesets@.len() <= 255 && (forall|k: int|
                    0 <= k < tile_grids(input.layers@).len() ==> input_layer_ok(
                        #[trigger] tile_grids(input.layers@)[k],
                        input.tilesets@,
                    )) && tile_grids(input.layers@).len() > 255 && e == SaturnError::CountOverflow)
                ||| ((forall|i: int|
                    0 <= i < input.tilesets@.len() ==> spec_tileset_ok(
                        #[trigger] input.tilesets@[i],
                    )) && input.tilesets@.len() <= 255 && (forall|k: int|
                    0 <= k < tile_grids(input.layers@).len() ==> input_layer_ok(
                        #[trigger] tile_grids(input.layers@)[k],
                        input.tilesets@,
                    )) && tile_grids(input.layers@).len() <= 255 && (exists|k: int|
                    0 <= k < image_layers(input.layers@).len() && !spec_bitmap_ok(
                        #[trigger] image_layers(input.layers@)[k].1,
                    )) && e == SaturnError::InvalidImageDimensions)
                ||| ((forall|i: int|
                    0 <= i < input.tilesets@.len() ==> spec_tileset_ok(
                        #[trigger] input.tilesets@[i],
                    )) && input.tilesets@.len() <= 255 && (forall|k: int|
                    0 <= k < tile_grids(input.layers@).len() ==> input_layer_ok(
                        #[trigger] tile_grids(input.layers@)[k],
                        input.tilesets@,
                    )) && tile_grids(input.layers@).len() <= 255 && (forall|k: int|
                    0 <= k < image_layers(input.layers@).len() ==> spec_bitmap_ok(
                        #[trigger] image_layers(input.layers@)[k].1,
                    )) && image_layers(input.layers@).len() > 255 && e
                    == SaturnError::CountOverflow)
            },
    {
        let tilesets = match SaturnTileset::build(&input.tilesets) {
            Ok(t) => t,
            Err(e) => {
                return Err(e);
            },
        };
        if tilesets.len() > 255 {
            return Err(SaturnError::CountOverflow);
        }
        let tileset_count: u8 = tilesets.len() as u8;
        let mut tilesets_size: u32 = 0;
        let mut i: usize = 0;
        while i < tilesets.len()
            invariant
                i <= tilesets@.len(),
                tilesets@.len() <= 255,
                tilesets@.len() == input.tilesets@.len(),
                forall|k: int|
                    0 <= k < input.tilesets@.len() ==> tileset_matches(
                        #[trigger] tilesets@[k],
                        input.tilesets@[k],
                    ),
                forall|k: int|
                    0 <= k < input.tilesets@.len() ==> spec_tileset_ok(
                        #[trigger] input.tilesets@[k],
                    ),
                forall|k: int|
                    0 <= k < input.tilesets@.len() ==> tileset_input_bounded(
                        #[trigger] input.tilesets@[k],
                    ),
                tilesets_size == tilesets_sizes(tilesets@.take(i as int)),
                tilesets_size <= i * 0x21_0000,
            decreases tilesets@.len() - i,
        {
            proof {
                lemma_tileset_size_bound(tilesets@[i as int], input.tilesets@[i as int]);
                assert(tilesets@.take(i as int + 1).drop_last() =~= tilesets@.take(i as int));
            }
            tilesets_size = tilesets_size + tilesets[i].tileset_size;
            i += 1;
        }
        proof {
            assert(tilesets@.take(tilesets@.len() as int) =~= tilesets@);
        }
        proof {
            lemma_sums_match(tilesets@, input.tilesets@, input.tilesets@.len() as int);
            assert(forall|i2: int|
                0 <= i2 < input.layers@.len() ==> (#[trigger] input.layers@[i2] matches
                    LayerInput::Tiles { grid } ==> grid_bounded(grid)));
        }
        let layers = match SaturnLayer::build(&input.layers, &tilesets) {
            Ok(v) => v,
            Err(e) => {
                proof {
                    lemma_layer_ok_bridge(*input, tilesets@);
                }
                return Err(e);
            },
        };
        proof {
            lemma_layer_ok_bridge(*input, tilesets@);
        }
        if layers.len() > 255 {
            return Err(SaturnError::CountOverflow);
        }
        let layer_count: u8 = layers.len() as u8;
        let mut layers_size: u32 = 0;
        let mut i: usize = 0;
        while i < layers.len()
            invariant
                i <= layers@.len(),
                layers@.len() <= 255,
                layers@.len() == tile_grids(input.layers@).len(),
                map_input_bounded(*input),
                tilesets@.len() == input.tilesets@.len(),
                forall|k: int|
                    0 <= k < tile_grids(input.layers@).len() ==> layer_matches(
                        #[trigger] layers@[k],
                        tile_grids(input.layers@)[k],
                        tilesets@,
                        spec_transparency(tile_grids(input.layers@), k),
                    ),
                forall|k: int|
                    0 <= k < tile_grids(input.layers@).len() ==> spec_layer_ok(
                        #[trigger] tile_grids(input.layers@)[k],
                        tilesets@,
                    ),
                layers_size == layers_sizes(layers@.take(i as int)),
                layers_size <= i * 0x41_0000,
            decreases layers@.len() - i,
        {
            proof {
                let g = tile_grids(input.layers@)[i as int];
                lemma_tile_grids_all(
                    input.layers@,
                    |gr: TileGrid|
                        gr.wf() && gr.width == input.width && gr.height == input.height,
                );
                lemma_tile_grids_all(
                    input.layers@,
                    |gr: TileGrid|
                        (any_populated(gr.cells@) && uni_tileset(gr.cells@)) ==> (grid_tsidx16(
                            gr.cells@,
                        ) as int) < input.tilesets@.len(),
                );
                assert(g.width * g.height <= 0x10_0000);
                lemma_layer_size_bound(
                    layers@[i as int],
                    g,
                    tilesets@,
                    spec_transparency(tile_grids(input.layers@), i as int),
                );
                assert(layers@.take(i as int + 1).drop_last() =~= layers@.take(i as int));
            }
            layers_size = layers_size + layers[i].layer_size;
            i += 1;
        }
        proof {
            assert(layers@.take(layers@.len() as int) =~= layers@);
        }
        let bitmap_layers = match SaturnBitmapLayer::build(&input.layers, words_per_palette) {
            Ok(v) => v,
            Err(e) => {
                return Err(e);
            },
        };
        if bitmap_layers.len() > 255 {
            return Err(SaturnError::CountOverflow);
        }
        let bitmap_layer_count: u8 = bitmap_layers.len() as u8;
        let mut bitmap_layers_size: u32 = 0;
        let mut i: usize = 0;
        while i < bitmap_layers.len()
            invariant
                i <= bitmap_layers@.len(),
                bitmap_layers@.len() <= 255,
                bitmap_layers@.len() == image_layers(input.layers@).len(),
                map_input_bounded(*input),
                forall|k: int|
                    0 <= k < image_layers(input.layers@).len() ==> bitmap_matches(
                        #[trigger] bitmap_layers@[k],
                        image_layers(input.layers@)[k].0,
                        image_layers(input.layers@)[k].1,
                    ),
                bitmap_layers_size == bitmaps_sizes(bitmap_layers@.take(i as int)),
                bitmap_layers_size <= i * 0x41_0000,
            decreases bitmap_layers@.len() - i,
        {
            proof {
                lemma_image_layers_all(
                    input.layers@,
                    |id: u32, image: Option<BitmapImage>|
                        (image matches Some(b) ==> b.pixels@.len() <= 0x10_0000),
                );
                lemma_bitmap_size_bound(
                    bitmap_layers@[i as int],
                    image_layers(input.layers@)[i as int].0,
                    image_layers(input.layers@)[i as int].1,
                );
                assert(bitmap_layers@.take(i as int + 1).drop_last() =~= bitmap_layers@.take(
                    i as int,
                ));
            }
            bitmap_layers_size = bitmap_layers_size + bitmap_layers[i].layer_size;
            i += 1;
        }
        proof {
            assert(bitmap_layers@.take(bitmap_layers@.len() as int) =~= bitmap_layers@);
        }
        let collisions = SaturnCollision::build(input.width, input.height, &input.layers);
        proof {
            let w = input.width as int;
            let h = input.height as int;
            if w > 0 {
                assert forall|i2: int|
                    0 <= i2 < collisions@.len() implies (#[trigger] collisions@[i2]).wf() by {
                    vstd::arithmetic::div_mod::lemma_fundamental_div_mod(i2, w);
                    vstd::arithmetic::div_mod::lemma_mod_bound(i2, w);
                    vstd::arithmetic::div_mod::lemma_div_pos_is_pos(i2, w);
                    assert(i2 < w * h) by (nonlinear_arith)
                        requires
                            i2 < collisions@.len(),
                            collisions@.len() == w * h,
                    ;
                    vstd::arithmetic::div_mod::lemma_multiply_divide_lt(i2, w, h);
                    assert(w * (i2 / w) == (i2 / w) * w) by (nonlinear_arith);
                    assert(collision_matches(
                        collisions@[(i2 / w) * w + i2 % w],
                        final_rect(tile_grids(input.layers@), i2 % w, i2 / w),
                    ));
                }
            } else {
                assert(w * h == 0) by (nonlinear_arith)
                    requires
                        w == 0,
                ;
                assert(collisions@.len() == 0);
            }
        }
        let header = SaturnMapHeader::new(
            input.width,
            input.height,
            tileset_count,
            tilesets_size,
            layer_count,
            layers_size,
            bitmap_layer_count,
            bitmap_layers_size,
        );
        Ok(SaturnMap { header, tilesets, layers, bitmap_layers, collisions })
    }
}

/// With the encoded tilesets of this input, a grid encodes exactly when
/// the input alone says it does.
proof fn lemma_layer_ok_bridge(input: MapInput, encoded: Seq<SaturnTileset>)
    requires
        map_input_bounded(input),
        encoded.len() == input.tilesets@.len(),
        forall|i: int|
            0 <= i < input.tilesets@.len() ==> tileset_matches(
                #[trigger] encoded[i],
                input.tilesets@[i],
            ),
    ensures
        forall|k: int|
            0 <= k < tile_grids(input.layers@).len() ==> (spec_layer_ok(
                #[trigger] tile_grids(input.layers@)[k],
                encoded,
            ) == input_layer_ok(tile_grids(input.layers@)[k], input.tilesets@)),
        forall|k: int|
            0 <= k < tile_grids(input.layers@).len() ==> crate::layer::spec_layer_err(
                #[trigger] tile_grids(input.layers@)[k],
                encoded,
            ) == input_layer_err(tile_grids(input.layers@)[k]),
{
    lemma_tile_grids_all(
        input.layers@,
        |gr: TileGrid|
            (any_populated(gr.cells@) && uni_tileset(gr.cells@)) ==> (grid_tsidx16(
                gr.cells@,
            ) as int) < input.tilesets@.len(),
    );
    assert forall|k: int| 0 <= k < tile_grids(input.layers@).len() implies (spec_layer_ok(
        #[trigger] tile_grids(input.layers@)[k],
        encoded,
    ) == input_layer_ok(tile_grids(input.layers@)[k], input.tilesets@)) by {
        let g = tile_grids(input.layers@)[k];
        let idx = grid_tsidx16(g.cells@) as int;
        if any_populated(g.cells@) && uni_tileset(g.cells@) {
            assert(0 <= idx < encoded.len());
            assert(tileset_matches(encoded[idx], input.tilesets@[idx]));
            assert(spec_page_size(encoded[idx]) is Some == input_page_some(
                input.tilesets@[idx],
            ));
        }
    }
}

} // verus!
