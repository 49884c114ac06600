//! Tileset encoding: palette selection, bit-depth derivation, and
//! character-pattern packing, plus the tileset segment's serialized form.
//!
//! A tileset segment is laid out big-endian as: size, tile width, tile
//! height, tile count, bpp, palette word size, number of colors, palette
//! bank, palette byte length, palette bytes, pattern byte length, pattern
//! bytes. The size field counts the whole segment, itself included.

use vstd::prelude::*;

use vstd::arithmetic::div_mod::lemma_fundamental_div_mod;
use vstd::arithmetic::div_mod::lemma_fundamental_div_mod_converse;
use vstd::arithmetic::mul::lemma_mul_inequality;

use crate::bytes::push_u16_be;
use crate::color_table::dedup_first;
use crate::color_table::direct_indices;
use crate::color_table::get_bpp;
use crate::color_table::get_number_of_colors;
use crate::color_table::indexed_pixels;
use crate::color_table::lemma_dedup_len;
use crate::color_table::lemma_words16_len;
use crate::color_table::pack_colors16;
use crate::color_table::pack_colors32;
use crate::color_table::lemma_words32_len;
use crate::color_table::words16_bytes;
use crate::color_table::words32_bytes;
use crate::color_table::SaturnColorTable;
use crate::model::PixelSource;
use crate::model::TilesetInput;
use crate::props::get_palette_bank;
use crate::props::get_words_per_palette;
use crate::props::spec_palette_bank;
use crate::props::spec_words_per_palette;
use crate::bytes::push_u32_be;
use crate::bytes::u16_be;
use crate::bytes::u32_be;
use crate::errors::SaturnError;

verus! {

/// Serialized bytes of a tileset segment before the two variable payloads.
pub const TILESET_FIXED_LEN: u32 = 30;

/// One encoded tileset, ready to serialize.
#[derive(Debug, PartialEq, Eq)]
pub struct SaturnTileset {
    /// Total serialized length of this segment, size field included.
    pub tileset_size: u32,
    /// Width of one tile in pixels (8 or 16).
    pub tile_width: u32,
    /// Height of one tile in pixels (8 or 16).
    pub tile_height: u32,
    /// Number of tiles in the tileset.
    pub tile_count: u32,
    /// Bits per pixel index: 4, 8 or 11.
    pub bpp: u16,
    /// Palette word size selector: 1 for 16-bit words, otherwise 32-bit.
    pub words_per_palette: u8,
    /// Hardware palette size: 16, 256, 1024 or 2048.
    pub number_of_colors: u16,
    /// Hardware palette bank selector.
    pub palette_bank: u8,
    /// Packed palette bytes.
    pub palette: Vec<u8>,
    /// Packed character-pattern bytes.
    pub character_pattern: Vec<u8>,
}

impl SaturnTileset {
    /// Exact serialized length of this segment.
    pub open spec fn ser_len(&self) -> int {
        TILESET_FIXED_LEN + self.palette@.len() + self.character_pattern@.len()
    }

    /// The size field was frozen to the segment's exact serialized length.
    pub open spec fn wf(&self) -> bool {
        self.tileset_size == self.ser_len()
    }

    /// The serialized byte stream of this segment.
    pub open spec fn ser(&self) -> Seq<u8> {
        u32_be(self.tileset_size) + u32_be(self.tile_width) + u32_be(self.tile_height) + u32_be(
            self.tile_count,
        ) + u16_be(self.bpp) + seq![self.words_per_palette] + u16_be(self.number_of_colors)
            + seq![self.palette_bank] + u32_be(self.palette@.len() as u32) + self.palette@ + u32_be(
            self.character_pattern@.len() as u32,
        ) + self.character_pattern@
    }

    /// Appends the serialized segment.
    pub fn write_into(&self, out: &mut Vec<u8>)
        requires
            self.wf(),
        ensures
            final(out)@ == old(out)@ + self.ser(),
    {
        push_u32_be(out, self.tileset_size);
        push_u32_be(out, self.tile_width);
        push_u32_be(out, self.tile_height);
        push_u32_be(out, self.tile_count);
        push_u16_be(out, self.bpp);
        out.push(self.words_per_palette);
        push_u16_be(out, self.number_of_colors);
        out.push(self.palette_bank);
        push_u32_be(out, self.palette.len() as u32);
        out.extend_from_slice(self.palette.as_slice());
        push_u32_be(out, self.character_pattern.len() as u32);
        out.extend_from_slice(self.character_pattern.as_slice());
        assert(out@ =~= old(out)@ + self.ser());
    }
}

/// 4bpp packing: two indices per byte, the first in the high nibble.
pub open spec fn pack4_bytes(s: Seq<u16>) -> Seq<u8> {
    Seq::new(
        s.len() / 2,
        |k: int| (((s[2 * k] as u8) & 0xF) << 4) | ((s[2 * k + 1] as u8) & 0xF),
    )
}

/// 8bpp packing: one byte per index, truncated.
pub open spec fn pack8_bytes(s: Seq<u16>) -> Seq<u8> {
    Seq::new(s.len(), |k: int| s[k] as u8)
}

/// 11bpp packing: two bytes per index, the three high bits first.
pub open spec fn pack11_bytes(s: Seq<u16>) -> Seq<u8> {
    Seq::new(
        2 * s.len(),
        |k: int|
            if k % 2 == 0 {
                ((s[k / 2] >> 8) & 0x7) as u8
            } else {
                s[k / 2] as u8
            },
    )
}

/// The packed bytes of an index list at a given depth.
pub open spec fn pack_bytes(bpp: u16, s: Seq<u16>) -> Seq<u8> {
    if bpp == 4 {
        pack4_bytes(s)
    } else if bpp == 8 {
        pack8_bytes(s)
    } else if bpp == 11 {
        pack11_bytes(s)
    } else {
        Seq::empty()
    }
}

/// Bit-packs a list of pixel indices at the given depth: 4bpp packs two
/// indices per byte, 8bpp one byte per index, 11bpp two bytes per index.
/// Any other depth is unsupported.
pub fn pack_indices(bpp: u16, data: &Vec<u16>) -> (r: Result<Vec<u8>, SaturnError>)
    requires
        bpp == 4 ==> data@.len() % 2 == 0,
    ensures
        bpp == 4 || bpp == 8 || bpp == 11 ==> (r matches Ok(v) && v@ == pack_bytes(bpp, data@)),
        !(bpp == 4 || bpp == 8 || bpp == 11) ==> r == Err::<Vec<u8>, SaturnError>(
            SaturnError::UnsupportedBpp,
        ),
{
    let mut out: Vec<u8> = Vec::new();
    if bpp == 4 {
        let mut i: usize = 0;
        while i + 1 < data.len()
            invariant
                i <= data@.len(),
                i % 2 == 0,
                data@.len() % 2 == 0,
                out@ == pack4_bytes(data@.take(i as int)),
            decreases data@.len() - i,
        {
            let b: u8 = (((data[i] as u8) & 0xF) << 4) | ((data[i + 1] as u8) & 0xF);
            out.push(b);
            proof {
                let cur = data@.take(i + 2);
                assert(cur[2 * ((i as int) / 2)] == data@[i as int]);
                assert(cur[2 * ((i as int) / 2) + 1] == data@[i + 1]);
                assert(out@ =~= pack4_bytes(cur));
            }
            i += 2;
        }
        proof {
            assert(data@.take(data@.len() as int) =~= data@);
        }
        Ok(out)
    } else if bpp == 8 {
        let mut i: usize = 0;
        while i < data.len()
            invariant
                i <= data@.len(),
                out@ == pack8_bytes(data@.take(i as int)),
            decreases data@.len() - i,
        {
            out.push(data[i] as u8);
            proof {
                assert(out@ =~= pack8_bytes(data@.take(i + 1)));
            }
            i += 1;
        }
        proof {
            assert(data@.take(data@.len() as int) =~= data@);
        }
        Ok(out)
    } else if bpp == 11 {
        let mut i: usize = 0;
        while i < data.len()
            invariant
                i <= data@.len(),
                out@ == pack11_bytes(data@.take(i as int)),
            decreases data@.len() - i,
        {
            out.push(((data[i] >> 8) & 0x7) as u8);
            out.push(data[i] as u8);
            proof {
                assert(out@ =~= pack11_bytes(data@.take(i + 1)));
            }
            i += 1;
        }
        proof {
            assert(data@.take(data@.len() as int) =~= data@);
        }
        Ok(out)
    } else {
        Err(SaturnError::UnsupportedBpp)
    }
}

/// The 64 pixel indices of the 8x8 block at `(tx, ty)`, row-major, in an
/// image whose pixel row stride is `rows`.
pub open spec fn block8_at(indices: Seq<u32>, rows: int, tx: int, ty: int) -> Seq<u16> {
    Seq::new(64, |i: int| indices[rows * (ty + i / 8) + tx + i % 8] as u16)
}

/// Can the 8x8 block at `(tx, ty)` be read: it lies inside the image,
/// and its last pixel position exists in the pixel data.
pub open spec fn block8_ok(indices: Seq<u32>, w: int, h: int, tx: int, ty: int) -> bool {
    &&& tx + 8 <= w
    &&& ty + 8 <= h
    &&& (indices.len() as int / h) * (ty + 7) + tx + 7 < indices.len()
}

/// A row-stride product stays within the pixel data: for any pixel row
/// `yy` of the image, `(len / h) * yy <= len`.
proof fn lemma_row_product_bound(len: int, h: int, yy: int)
    requires
        0 < h,
        0 <= yy < h,
        0 <= len,
    ensures
        0 <= (len / h) * yy <= len,
{
    let q = len / h;
    lemma_fundamental_div_mod(len, h);
    vstd::arithmetic::div_mod::lemma_mod_bound(len, h);
    vstd::arithmetic::div_mod::lemma_div_pos_is_pos(len, h);
    vstd::arithmetic::mul::lemma_mul_nonnegative(q, yy);
    lemma_mul_inequality(yy, h, q);
    assert(yy * q == q * yy) by (nonlinear_arith);
    assert(h * q == q * h) by (nonlinear_arith);
}

/// Every pixel position of a readable block is in bounds.
proof fn lemma_block8_positions(indices: Seq<u32>, w: int, h: int, tx: int, ty: int, x: int, y: int)
    requires
        0 < h,
        0 <= tx,
        0 <= ty,
        0 <= x < 8,
        0 <= y < 8,
        block8_ok(indices, w, h, tx, ty),
    ensures
        0 <= (indices.len() as int / h) * (ty + y) + tx + x < indices.len(),
{
    let rows = indices.len() as int / h;
    lemma_fundamental_div_mod(indices.len() as int, h);
    vstd::arithmetic::div_mod::lemma_mod_bound(indices.len() as int, h);
    vstd::arithmetic::div_mod::lemma_div_pos_is_pos(indices.len() as int, h);
    lemma_mul_inequality(ty + y, ty + 7, rows);
    assert((ty + y) * rows == rows * (ty + y)) by (nonlinear_arith);
    assert((ty + 7) * rows == rows * (ty + 7)) by (nonlinear_arith);
    vstd::arithmetic::mul::lemma_mul_nonnegative(rows, ty + y);
}

/// Reads one 8x8 block of pixel indices from a decoded image. The block
/// must lie fully inside the image and inside the pixel data; a block
/// that overhangs either is a malformed-dimensions error.
pub fn read_8x8_tile(
    raw_image: &Vec<u32>,
    image_width: u32,
    image_height: u32,
    tile_x: u32,
    tile_y: u32,
) -> (r: Result<Vec<u16>, SaturnError>)
    requires
        0 < image_height <= 0x4000,
        image_width <= 0x4000,
        tile_x <= 0x8000,
        tile_y <= 0x8000,
        raw_image@.len() <= 0x1000_0000,
    ensures
        block8_ok(
            raw_image@,
            image_width as int,
            image_height as int,
            tile_x as int,
            tile_y as int,
        ) ==> (r matches Ok(v) && v@ == block8_at(
            raw_image@,
            raw_image@.len() as int / image_height as int,
            tile_x as int,
            tile_y as int,
        )),
        !block8_ok(
            raw_image@,
            image_width as int,
            image_height as int,
            tile_x as int,
            tile_y as int,
        ) ==> r == Err::<Vec<u16>, SaturnError>(SaturnError::MalformedImageDimensions),
{
    if tile_x + 8 > image_width || tile_y + 8 > image_height {
        return Err(SaturnError::MalformedImageDimensions);
    }
    let rows: usize = raw_image.len() / (image_height as usize);
    let ghost rows_int = raw_image@.len() as int / image_height as int;
    proof {
        assert(rows == rows_int);
        lemma_row_product_bound(
            raw_image@.len() as int,
            image_height as int,
            tile_y as int + 7,
        );
    }
    let last_pos: usize = rows * (tile_y as usize + 7) + (tile_x as usize + 7);
    if last_pos >= raw_image.len() {
        return Err(SaturnError::MalformedImageDimensions);
    }
    let mut result: Vec<u16> = Vec::new();
    let mut y: u32 = 0;
    while y < 8
        invariant
            y <= 8,
            rows == rows_int,
            rows_int == raw_image@.len() as int / image_height as int,
            0 < image_height <= 0x4000,
            image_width <= 0x4000,
            tile_x + 8 <= image_width,
            tile_y + 8 <= image_height,
            raw_image@.len() <= 0x1000_0000,
            block8_ok(
                raw_image@,
                image_width as int,
                image_height as int,
                tile_x as int,
                tile_y as int,
            ),
            result@.len() == 8 * y,
            forall|k: int|
                0 <= k < result@.len() ==> result@[k] == block8_at(
                    raw_image@,
                    rows_int,
                    tile_x as int,
                    tile_y as int,
                )[k],
        decreases 8 - y,
    {
        let mut x: u32 = 0;
        while x < 8
            invariant
                x <= 8,
                y < 8,
                rows == rows_int,
                rows_int == raw_image@.len() as int / image_height as int,
                0 < image_height <= 0x4000,
                image_width <= 0x4000,
                tile_x + 8 <= image_width,
                tile_y + 8 <= image_height,
                raw_image@.len() <= 0x1000_0000,
                block8_ok(
                    raw_image@,
                    image_width as int,
                    image_height as int,
                    tile_x as int,
                    tile_y as int,
                ),
                result@.len() == 8 * y + x,
                forall|k: int|
                    0 <= k < result@.len() ==> result@[k] == block8_at(
                        raw_image@,
                        rows_int,
                        tile_x as int,
                        tile_y as int,
                    )[k],
            decreases 8 - x,
        {
            proof {
                lemma_block8_positions(
                    raw_image@,
                    image_width as int,
                    image_height as int,
                    tile_x as int,
                    tile_y as int,
                    x as int,
                    y as int,
                );
            }
            let idx: usize = rows * ((tile_y + y) as usize) + ((tile_x + x) as usize);
            let value = raw_image[idx];
            result.push(#[verifier::truncate] (value as u16));
            proof {
                let k = result@.len() - 1;
                assert(k / 8 == y && k % 8 == x) by {
                    lemma_fundamental_div_mod_converse(k, 8, y as int, x as int);
                }
            }
            x += 1;
        }
        y += 1;
    }
    Ok(result)
}

/// The 256 indices of a 16x16 tile: its four 8x8 sub-blocks in fixed
/// order, top-left, top-right, bottom-left, bottom-right.
pub open spec fn tile16_at(indices: Seq<u32>, rows: int, tx: int, ty: int) -> Seq<u16> {
    block8_at(indices, rows, tx, ty) + block8_at(indices, rows, tx + 8, ty) + block8_at(
        indices,
        rows,
        tx,
        ty + 8,
    ) + block8_at(indices, rows, tx + 8, ty + 8)
}

/// The packed bytes of one tile block with top-left corner `(tx, ty)`.
pub open spec fn block_unit(
    indices: Seq<u32>,
    rows: int,
    tsize: int,
    bpp: u16,
    tx: int,
    ty: int,
) -> Seq<u8> {
    if tsize == 16 {
        pack_bytes(bpp, tile16_at(indices, rows, tx, ty))
    } else {
        pack_bytes(bpp, block8_at(indices, rows, tx, ty))
    }
}

/// The packed bytes of the first `n` tile blocks, blocks taken row-major.
pub open spec fn pattern_prefix(
    indices: Seq<u32>,
    rows: int,
    w: int,
    tsize: int,
    bpp: u16,
    n: int,
) -> Seq<u8>
    decreases n,
{
    if n <= 0 {
        Seq::empty()
    } else {
        let bx = w / tsize;
        pattern_prefix(indices, rows, w, tsize, bpp, n - 1) + block_unit(
            indices,
            rows,
            tsize,
            bpp,
            ((n - 1) % bx) * tsize,
            ((n - 1) / bx) * tsize,
        )
    }
}

/// The whole character-pattern byte stream of an image.
pub open spec fn pattern_bytes(indices: Seq<u32>, w: int, h: int, tsize: int, bpp: u16) -> Seq<
    u8,
> {
    pattern_prefix(
        indices,
        indices.len() as int / h,
        w,
        tsize,
        bpp,
        (h / tsize) * (w / tsize),
    )
}

/// Can the whole image be packed: trivially when it is empty, otherwise
/// both dimensions are exact multiples of the tile size and the last
/// pixel position exists in the pixel data.
pub open spec fn pattern_ok(indices: Seq<u32>, w: int, h: int, tsize: int) -> bool {
    w == 0 || h == 0 || (w % tsize == 0 && h % tsize == 0 && (indices.len() as int / h) * (h - 1)
        + (w - 1) < indices.len())
}

/// Are all reads of the tile block at `(tx, ty)` in bounds?
pub open spec fn unit_ok(
    indices: Seq<u32>,
    w: int,
    h: int,
    tsize: int,
    tx: int,
    ty: int,
) -> bool {
    if tsize == 16 {
        block8_ok(indices, w, h, tx, ty) && block8_ok(indices, w, h, tx + 8, ty) && block8_ok(
            indices,
            w,
            h,
            tx,
            ty + 8,
        ) && block8_ok(indices, w, h, tx + 8, ty + 8)
    } else {
        block8_ok(indices, w, h, tx, ty)
    }
}

/// In a packable image, every tile block of the grid can be read.
proof fn lemma_pattern_ok_unit(indices: Seq<u32>, w: int, h: int, t: int, tx: int, ty: int)
    requires
        t == 8 || t == 16,
        0 < w,
        0 < h,
        pattern_ok(indices, w, h, t),
        0 <= tx < w,
        0 <= ty < h,
        tx % t == 0,
        ty % t == 0,
    ensures
        unit_ok(indices, w, h, t, tx, ty),
{
    let rows = indices.len() as int / h;
    lemma_fundamental_div_mod(indices.len() as int, h);
    vstd::arithmetic::div_mod::lemma_mod_bound(indices.len() as int, h);
    vstd::arithmetic::div_mod::lemma_div_pos_is_pos(indices.len() as int, h);
    assert(tx + t <= w) by {
        assert((w - tx) % t == 0) by {
            vstd::arithmetic::div_mod::lemma_sub_mod_noop(w, tx, t);
            vstd::arithmetic::div_mod::lemma_small_mod(0nat, t as nat);
        }
        vstd::arithmetic::div_mod::lemma_mod_bound(w - tx, t);
        if w - tx < t {
            vstd::arithmetic::div_mod::lemma_small_mod((w - tx) as nat, t as nat);
        }
    }
    assert(ty + t <= h) by {
        assert((h - ty) % t == 0) by {
            vstd::arithmetic::div_mod::lemma_sub_mod_noop(h, ty, t);
            vstd::arithmetic::div_mod::lemma_small_mod(0nat, t as nat);
        }
        vstd::arithmetic::div_mod::lemma_mod_bound(h - ty, t);
        if h - ty < t {
            vstd::arithmetic::div_mod::lemma_small_mod((h - ty) as nat, t as nat);
        }
    }
    assert forall|sy: int| 0 <= sy <= h - 8 implies #[trigger] (rows * (sy + 7)) <= rows * (h
        - 1) by {
        lemma_mul_inequality(sy + 7, h - 1, rows);
        assert((sy + 7) * rows == rows * (sy + 7)) by (nonlinear_arith);
        assert((h - 1) * rows == rows * (h - 1)) by (nonlinear_arith);
    }
}

/// Tile size of a tileset's tiles, where the hardware supports it.
pub open spec fn spec_tile_size(tile_width: u32, tile_height: u32) -> Option<u32> {
    if tile_width == 8 && tile_height == 8 {
        Some(8u32)
    } else if tile_width == 16 && tile_height == 16 {
        Some(16u32)
    } else {
        None
    }
}

impl SaturnTileset {
    /// Packs the whole decoded image into character-pattern bytes:
    /// tile blocks row-major, each block's indices row-major (a 16x16
    /// tile as four 8x8 sub-blocks), bit-packed at `self.bpp`.
    pub fn get_character_pattern_data(
        &self,
        raw_image: &Vec<u32>,
        image_width: u32,
        image_height: u32,
    ) -> (r: Result<Vec<u8>, SaturnError>)
        requires
            image_width <= 0x4000,
            image_height <= 0x4000,
            raw_image@.len() <= 0x1000_0000,
        ensures
            spec_tile_size(self.tile_width, self.tile_height) is None ==> r == Err::<
                Vec<u8>,
                SaturnError,
            >(SaturnError::UnsupportedTileSize),
            spec_tile_size(self.tile_width, self.tile_height) matches Some(t) ==> {
                let bpp_ok = self.bpp == 4 || self.bpp == 8 || self.bpp == 11;
                let ok = pattern_ok(raw_image@, image_width as int, image_height as int, t as int);
                &&& (image_width == 0 || image_height == 0) ==> (r matches Ok(v) && v@
                    == Seq::<u8>::empty())
                &&& (image_width > 0 && image_height > 0 && !bpp_ok && unit_ok(
                    raw_image@,
                    image_width as int,
                    image_height as int,
                    t as int,
                    0,
                    0,
                )) ==> r == Err::<Vec<u8>, SaturnError>(SaturnError::UnsupportedBpp)
                &&& (image_width > 0 && image_height > 0 && !bpp_ok && !unit_ok(
                    raw_image@,
                    image_width as int,
                    image_height as int,
                    t as int,
                    0,
                    0,
                )) ==> r == Err::<Vec<u8>, SaturnError>(SaturnError::MalformedImageDimensions)
                &&& (image_width > 0 && image_height > 0 && bpp_ok && ok) ==> (r matches Ok(v)
                    && v@ == pattern_bytes(
                    raw_image@,
                    image_width as int,
                    image_height as int,
                    t as int,
                    self.bpp,
                ))
                &&& (image_width > 0 && image_height > 0 && bpp_ok && !ok) ==> r == Err::<
                    Vec<u8>,
                    SaturnError,
                >(SaturnError::MalformedImageDimensions)
            },
    {
        let tsize: u32 = if self.tile_width == 8 && self.tile_height == 8 {
            8
        } else if self.tile_width == 16 && self.tile_height == 16 {
            16
        } else {
            return Err(SaturnError::UnsupportedTileSize);
        };
        if image_width == 0 || image_height == 0 {
            return Ok(Vec::new());
        }
        if !(self.bpp == 4 || self.bpp == 8 || self.bpp == 11) {
            let first = self.read_unit(raw_image, image_width, image_height, 0, 0, tsize);
            return match first {
                Ok(_) => Err(SaturnError::UnsupportedBpp),
                Err(e) => Err(e),
            };
        }
        if image_width % tsize != 0 || image_height % tsize != 0 {
            return Err(SaturnError::MalformedImageDimensions);
        }
        let rows: usize = raw_image.len() / (image_height as usize);
        proof {
            lemma_row_product_bound(
                raw_image@.len() as int,
                image_height as int,
                image_height as int - 1,
            );
        }
        let last_pos: usize = rows * (image_height as usize - 1) + (image_width as usize - 1);
        if last_pos >= raw_image.len() {
            return Err(SaturnError::MalformedImageDimensions);
        }
        let ghost indices = raw_image@;
        let ghost t = tsize as int;
        let ghost w = image_width as int;
        let ghost h = image_height as int;
        let ghost bx = w / t;
        let ghost rows_int = indices.len() as int / h;
        proof {
            assert(rows == rows_int);
            assert(pattern_ok(indices, w, h, t));
            vstd::arithmetic::div_mod::lemma_div_pos_is_pos(w, t);
            vstd::arithmetic::div_mod::lemma_div_non_zero(w, t);
        }
        let mut results: Vec<u8> = Vec::new();
        let mut ty: u32 = 0;
        while ty < image_height
            invariant
                tsize == 8 || tsize == 16,
                t == tsize,
                w == image_width,
                h == image_height,
                0 < image_width <= 0x4000,
                0 < image_height <= 0x4000,
                indices == raw_image@,
                indices.len() <= 0x1000_0000,
                self.bpp == 4 || self.bpp == 8 || self.bpp == 11,
                pattern_ok(indices, w, h, t),
                w % t == 0,
                h % t == 0,
                bx == w / t,
                bx >= 1,
                rows_int == indices.len() as int / h,
                ty % tsize == 0,
                ty <= image_height,
                results@ == pattern_prefix(indices, rows_int, w, t, self.bpp, (ty as int / t) * bx),
            decreases image_height - ty,
        {
            let mut tx: u32 = 0;
            while tx < image_width
                invariant
                    tsize == 8 || tsize == 16,
                    t == tsize,
                    w == image_width,
                    h == image_height,
                    0 < image_width <= 0x4000,
                    0 < image_height <= 0x4000,
                    indices == raw_image@,
                    indices.len() <= 0x1000_0000,
                    self.bpp == 4 || self.bpp == 8 || self.bpp == 11,
                    pattern_ok(indices, w, h, t),
                    w % t == 0,
                    h % t == 0,
                    bx == w / t,
                    bx >= 1,
                    rows_int == indices.len() as int / h,
                    ty % tsize == 0,
                    ty < image_height,
                    tx % tsize == 0,
                    tx <= image_width,
                    results@ == pattern_prefix(
                        indices,
                        rows_int,
                        w,
                        t,
                        self.bpp,
                        (ty as int / t) * bx + tx as int / t,
                    ),
                decreases image_width - tx,
            {
                proof {
                    lemma_pattern_ok_unit(indices, w, h, t, tx as int, ty as int);
                }
                let unit = match self.read_unit(
                    raw_image,
                    image_width,
                    image_height,
                    tx,
                    ty,
                    tsize,
                ) {
                    Ok(u) => u,
                    Err(e) => {
                        return Err(e);
                    },
                };
                let packed = match pack_indices(self.bpp, &unit) {
                    Ok(p) => p,
                    Err(e) => {
                        return Err(e);
                    },
                };
                results.extend_from_slice(packed.as_slice());
                proof {
                    let j = (ty as int / t) * bx + tx as int / t;
                    assert(0 <= tx as int / t < bx) by {
                        vstd::arithmetic::div_mod::lemma_div_pos_is_pos(tx as int, t);
                        assert(tx + t <= w) by {
                            vstd::arithmetic::div_mod::lemma_sub_mod_noop(w, tx as int, t);
                            vstd::arithmetic::div_mod::lemma_small_mod(0nat, t as nat);
                            if w - tx < t {
                                vstd::arithmetic::div_mod::lemma_small_mod(
                                    (w - tx) as nat,
                                    t as nat,
                                );
                            }
                        }
                        vstd::arithmetic::div_mod::lemma_div_by_multiple_is_strongly_ordered(
                            tx as int,
                            w,
                            bx,
                            t,
                        );
                    }
                    lemma_fundamental_div_mod_converse(j, bx, ty as int / t, tx as int / t);
                    assert((tx as int / t) * t == tx) by {
                        lemma_fundamental_div_mod(tx as int, t);
                    }
                    assert((ty as int / t) * t == ty) by {
                        lemma_fundamental_div_mod(ty as int, t);
                    }
                    assert(results@ == pattern_prefix(indices, rows_int, w, t, self.bpp, j + 1));
                    assert((tx + tsize) as int / t == tx as int / t + 1) by {
                        lemma_fundamental_div_mod_converse(
                            tx as int + t,
                            t,
                            tx as int / t + 1,
                            0,
                        );
                    }
                }
                tx += tsize;
            }
            proof {
                assert(tx == image_width);
                assert((ty + tsize) as int / t == ty as int / t + 1) by {
                    lemma_fundamental_div_mod(ty as int, t);
                    lemma_fundamental_div_mod_converse(ty as int + t, t, ty as int / t + 1, 0);
                }
                assert((ty as int / t) * bx + w / t == (ty as int / t + 1) * bx) by {
                    assert((ty as int / t + 1) * bx == (ty as int / t) * bx + bx)
                        by (nonlinear_arith);
                }
            }
            ty += tsize;
        }
        proof {
            assert(ty == image_height);
            assert(results@ == pattern_bytes(indices, w, h, t, self.bpp)) by {
                assert((h / t) * bx == (ty as int / t) * bx);
            }
        }
        Ok(results)
    }

    /// Reads the indices of one tile block: one 8x8 block, or a 16x16
    /// tile as its four sub-blocks in fixed order.
    fn read_unit(
        &self,
        raw_image: &Vec<u32>,
        image_width: u32,
        image_height: u32,
        tx: u32,
        ty: u32,
        tsize: u32,
    ) -> (r: Result<Vec<u16>, SaturnError>)
        requires
            tsize == 8 || tsize == 16,
            0 < image_height <= 0x4000,
            image_width <= 0x4000,
            tx <= 0x4000,
            ty <= 0x4000,
            raw_image@.len() <= 0x1000_0000,
        ensures
            unit_ok(
                raw_image@,
                image_width as int,
                image_height as int,
                tsize as int,
                tx as int,
                ty as int,
            ) ==> (r matches Ok(v) && v@ == if tsize == 16 {
                tile16_at(
                    raw_image@,
                    raw_image@.len() as int / image_height as int,
                    tx as int,
                    ty as int,
                )
            } else {
                block8_at(
                    raw_image@,
                    raw_image@.len() as int / image_height as int,
                    tx as int,
                    ty as int,
                )
            }),
            !unit_ok(
                raw_image@,
                image_width as int,
                image_height as int,
                tsize as int,
                tx as int,
                ty as int,
            ) ==> r == Err::<Vec<u16>, SaturnError>(SaturnError::MalformedImageDimensions),
    {
        if tsize == 8 {
            read_8x8_tile(raw_image, image_width, image_height, tx, ty)
        } else {
            let mut res = read_8x8_tile(raw_image, image_width, image_height, tx, ty)?;
            let mut tr = read_8x8_tile(raw_image, image_width, image_height, tx + 8, ty)?;
            let mut bl = read_8x8_tile(raw_image, image_width, image_height, tx, ty + 8)?;
            let mut br = read_8x8_tile(raw_image, image_width, image_height, tx + 8, ty + 8)?;
            res.append(&mut tr);
            res.append(&mut bl);
            res.append(&mut br);
            Ok(res)
        }
    }
}

/// The color table a pixel source yields: the deduplicated colors of a
/// direct-color image, or the source palette of an indexed one.
pub open spec fn spec_table(px: PixelSource) -> Seq<u32> {
    match px {
        PixelSource::Direct { pixels } => dedup_first(pixels@),
        PixelSource::Indexed { palette, indices } => palette@,
    }
}

/// The palette-index stream a pixel source yields.
pub open spec fn spec_indices(px: PixelSource) -> Seq<u32> {
    match px {
        PixelSource::Direct { pixels } => direct_indices(pixels@),
        PixelSource::Indexed { palette, indices } => indices@,
    }
}

/// The bucketed palette size of a tileset input (meaningful when the
/// table holds between 1 and 2048 colors).
pub open spec fn spec_noc(input: TilesetInput) -> u16 {
    let n = spec_table(input.pixels).len();
    if n <= 16 {
        16u16
    } else if n <= 256 {
        256u16
    } else if n <= 1024 {
        1024u16
    } else {
        2048u16
    }
}

/// The bit depth a tileset input's palette size selects.
pub open spec fn spec_tileset_bpp(input: TilesetInput) -> u16 {
    if spec_noc(input) == 16 {
        4u16
    } else if spec_noc(input) == 256 {
        8u16
    } else {
        11u16
    }
}

/// Does encoding this tileset succeed?
pub open spec fn spec_tileset_ok(input: TilesetInput) -> bool {
    &&& 1 <= spec_table(input.pixels).len() <= 2048
    &&& spec_palette_bank(input.palette_bank) is Ok
    &&& spec_words_per_palette(input.pnd_size) is Ok
    &&& spec_tile_size(input.tile_width, input.tile_height) is Some
    &&& pattern_ok(
        spec_indices(input.pixels),
        input.image_width as int,
        input.image_height as int,
        spec_tile_size(input.tile_width, input.tile_height)->0 as int,
    )
}

/// The first error encoding this tileset runs into (meaningful when
/// `spec_tileset_ok` fails).
pub open spec fn spec_tileset_err(input: TilesetInput) -> SaturnError {
    if !(1 <= spec_table(input.pixels).len() <= 2048) {
        SaturnError::ColorTableOverflow
    } else if spec_palette_bank(input.palette_bank) is Err {
        spec_palette_bank(input.palette_bank)->Err_0
    } else if spec_words_per_palette(input.pnd_size) is Err {
        spec_words_per_palette(input.pnd_size)->Err_0
    } else if spec_tile_size(input.tile_width, input.tile_height) is None {
        SaturnError::UnsupportedTileSize
    } else {
        SaturnError::MalformedImageDimensions
    }
}

/// A color table padded with black entries to `n` colors, so the
/// palette byte length always matches the bucketed palette size times
/// the word size.
pub open spec fn padded_table(t: Seq<u32>, n: int) -> Seq<u32> {
    if t.len() >= n {
        t
    } else {
        t + Seq::new((n - t.len()) as nat, |i: int| 0u32)
    }
}

/// The palette bytes a tileset input encodes to: one word per entry of
/// the padded table.
pub open spec fn spec_tileset_palette(input: TilesetInput) -> Seq<u8> {
    let colors = padded_table(spec_table(input.pixels), spec_noc(input) as int);
    if spec_words_per_palette(input.pnd_size)->Ok_0 == 1 {
        words16_bytes(colors)
    } else {
        words32_bytes(colors)
    }
}

/// The character-pattern bytes a tileset input encodes to.
pub open spec fn spec_tileset_pattern(input: TilesetInput) -> Seq<u8> {
    pattern_bytes(
        spec_indices(input.pixels),
        input.image_width as int,
        input.image_height as int,
        spec_tile_size(input.tile_width, input.tile_height)->0 as int,
        spec_tileset_bpp(input),
    )
}

/// An encoded tileset is exactly what its input prescribes.
pub open spec fn tileset_matches(t: SaturnTileset, input: TilesetInput) -> bool {
    &&& t.tile_width == input.tile_width
    &&& t.tile_height == input.tile_height
    &&& t.tile_count == input.tile_count
    &&& t.number_of_colors == spec_noc(input)
    &&& t.bpp == spec_tileset_bpp(input)
    &&& t.palette_bank == spec_palette_bank(input.palette_bank)->Ok_0
    &&& t.words_per_palette == spec_words_per_palette(input.pnd_size)->Ok_0
    &&& t.palette@ == spec_tileset_palette(input)
    &&& t.character_pattern@ == spec_tileset_pattern(input)
    &&& t.wf()
}

/// Machine limits on a tileset input: dimensions a hardware image can
/// have, and pixel data that fits in memory.
pub open spec fn tileset_input_bounded(input: TilesetInput) -> bool {
    &&& input.image_width <= 0x4000
    &&& input.image_height <= 0x4000
    &&& input.image_width * input.image_height <= 0x10_0000
    &&& match input.pixels {
        PixelSource::Direct { pixels } => pixels@.len() <= 0x1000_0000,
        PixelSource::Indexed { palette, indices } => palette@.len() <= 0x1000_0000
            && indices@.len() <= 0x1000_0000,
    }
}

/// One block's packed byte count at a given depth.
pub open spec fn unit_byte_len(t: int, bpp: u16) -> int {
    if bpp == 4 {
        t * t / 2
    } else if bpp == 8 {
        t * t
    } else {
        2 * (t * t)
    }
}

/// Each packed block contributes the same number of bytes.
proof fn lemma_pattern_prefix_len(
    indices: Seq<u32>,
    rows: int,
    w: int,
    t: int,
    bpp: u16,
    n: int,
)
    requires
        t == 8 || t == 16,
        bpp == 4 || bpp == 8 || bpp == 11,
        n >= 0,
    ensures
        pattern_prefix(indices, rows, w, t, bpp, n).len() == n * unit_byte_len(t, bpp),
    decreases n,
{
    if n > 0 {
        lemma_pattern_prefix_len(indices, rows, w, t, bpp, n - 1);
        let u = unit_byte_len(t, bpp);
        let bx = w / t;
        let bu = block_unit(indices, rows, t, bpp, ((n - 1) % bx) * t, ((n - 1) / bx) * t);
        assert(t * t == 64 || t * t == 256);
        assert(bu.len() == u);
        assert(pattern_prefix(indices, rows, w, t, bpp, n) == pattern_prefix(
            indices,
            rows,
            w,
            t,
            bpp,
            n - 1,
        ) + bu);
        assert((n - 1) * u + u == n * u) by (nonlinear_arith);
        assert(pattern_prefix(indices, rows, w, t, bpp, n).len() == n * u);
    } else {
        assert(n == 0);
        assert(pattern_prefix(indices, rows, w, t, bpp, 0).len() == 0);
        assert(0 * unit_byte_len(t, bpp) == 0) by (nonlinear_arith);
    }
}

/// The packed pattern is never longer than two bytes per image pixel.
pub proof fn lemma_pattern_total_len(indices: Seq<u32>, w: int, h: int, t: int, bpp: u16)
    requires
        t == 8 || t == 16,
        bpp == 4 || bpp == 8 || bpp == 11,
        0 <= w,
        0 <= h,
    ensures
        pattern_bytes(indices, w, h, t, bpp).len() <= 2 * (w * h),
        pattern_bytes(indices, w, h, t, bpp).len() >= 0,
{
    let rows = indices.len() as int / h;
    let nb = (h / t) * (w / t);
    vstd::arithmetic::div_mod::lemma_div_pos_is_pos(h, t);
    vstd::arithmetic::div_mod::lemma_div_pos_is_pos(w, t);
    vstd::arithmetic::mul::lemma_mul_nonnegative(h / t, w / t);
    lemma_pattern_prefix_len(indices, rows, w, t, bpp, nb);
    lemma_fundamental_div_mod(h, t);
    vstd::arithmetic::div_mod::lemma_mod_bound(h, t);
    lemma_fundamental_div_mod(w, t);
    vstd::arithmetic::div_mod::lemma_mod_bound(w, t);
    assert(nb * unit_byte_len(t, bpp) <= 2 * (w * h)) by (nonlinear_arith)
        requires
            nb == (h / t) * (w / t),
            t == 8 || t == 16,
            bpp == 4 || bpp == 8 || bpp == 11,
            unit_byte_len(t, bpp) == if bpp == 4 {
                t * t / 2
            } else if bpp == 8 {
                t * t
            } else {
                2 * (t * t)
            },
            0 <= t * (h / t) <= h,
            0 <= t * (w / t) <= w,
    ;
}

/// Encodes one tileset: builds its indexed palette, derives depth and
/// palette size, reads the two required properties, and packs palette
/// and character-pattern bytes; freezes the segment size last.
pub fn encode_tileset(input: &TilesetInput) -> (r: Result<SaturnTileset, SaturnError>)
    requires
        tileset_input_bounded(*input),
    ensures
        spec_tileset_ok(*input) ==> (r matches Ok(t) && tileset_matches(t, *input)),
        !spec_tileset_ok(*input) ==> r == Err::<SaturnTileset, SaturnError>(
            spec_tileset_err(*input),
        ),
{
    let (table, indices): (SaturnColorTable, Vec<u32>) = match &input.pixels {
        PixelSource::Direct { pixels } => {
            let table = SaturnColorTable::from_pixels(pixels);
            proof {
                lemma_dedup_len(pixels@);
            }
            let idx = indexed_pixels(&table, pixels);
            (table, idx)
        },
        PixelSource::Indexed { palette, indices } => {
            (SaturnColorTable::new(palette.clone()), indices.clone())
        },
    };
    let number_of_colors = match get_number_of_colors(table.len()) {
        Ok(n) => n,
        Err(e) => {
            return Err(e);
        },
    };
    let bpp = match get_bpp(number_of_colors) {
        Ok(b) => b,
        Err(e) => {
            return Err(e);
        },
    };
    let palette_bank = match get_palette_bank(&input.palette_bank) {
        Ok(b) => b,
        Err(e) => {
            return Err(e);
        },
    };
    let words_per_palette = match get_words_per_palette(&input.pnd_size) {
        Ok(w) => w,
        Err(e) => {
            return Err(e);
        },
    };
    proof {
        assert(table@.len() <= number_of_colors);
    }
    let padded = table.padded_colors(number_of_colors as usize);
    proof {
        assert(padded@ =~= padded_table(spec_table(input.pixels), spec_noc(*input) as int));
    }
    let palette_data: Vec<u8> = if words_per_palette == 1 {
        proof {
            lemma_words16_len(padded@);
        }
        pack_colors16(&padded)
    } else {
        proof {
            lemma_words32_len(padded@);
        }
        pack_colors32(&padded)
    };
    let mut tileset = SaturnTileset {
        tileset_size: 0,
        tile_width: input.tile_width,
        tile_height: input.tile_height,
        tile_count: input.tile_count,
        bpp,
        words_per_palette,
        number_of_colors,
        palette_bank,
        palette: palette_data,
        character_pattern: Vec::new(),
    };
    let pattern = match tileset.get_character_pattern_data(
        &indices,
        input.image_width,
        input.image_height,
    ) {
        Ok(p) => p,
        Err(e) => {
            return Err(e);
        },
    };
    proof {
        let t = spec_tile_size(input.tile_width, input.tile_height)->0 as int;
        lemma_pattern_total_len(
            spec_indices(input.pixels),
            input.image_width as int,
            input.image_height as int,
            t,
            bpp,
        );
        if input.image_width == 0 || input.image_height == 0 {
            assert(pattern_bytes(
                spec_indices(input.pixels),
                input.image_width as int,
                input.image_height as int,
                t,
                bpp,
            ) =~= Seq::<u8>::empty()) by {
                lemma_pattern_prefix_len(
                    spec_indices(input.pixels),
                    spec_indices(input.pixels).len() as int / input.image_height as int,
                    input.image_width as int,
                    t,
                    bpp,
                    (input.image_height as int / t) * (input.image_width as int / t),
                );
                vstd::arithmetic::div_mod::lemma_div_pos_is_pos(input.image_height as int, t);
                vstd::arithmetic::div_mod::lemma_div_pos_is_pos(input.image_width as int, t);
                vstd::arithmetic::mul::lemma_mul_nonnegative(
                    input.image_height as int / t,
                    input.image_width as int / t,
                );
                assert((input.image_height as int / t) * (input.image_width as int / t)
                    * unit_byte_len(t, bpp) == 0) by (nonlinear_arith)
                    requires
                        input.image_width == 0 || input.image_height == 0,
                        t == 8 || t == 16,
                        input.image_width as int / t == 0 || input.image_height as int / t == 0,
                ;
            }
        }
    }
    tileset.character_pattern = pattern;
    let payload: usize = tileset.palette.len() + tileset.character_pattern.len();
    tileset.tileset_size = TILESET_FIXED_LEN + (payload as u32);
    Ok(tileset)
}

impl SaturnTileset {
/// Encodes every tileset of the map, in list order, stopping at the
/// first failure.
pub fn build(tilesets: &Vec<TilesetInput>) -> (r: Result<Vec<SaturnTileset>, SaturnError>)
    requires
        forall|i: int|
            0 <= i < tilesets@.len() ==> tileset_input_bounded(#[trigger] tilesets@[i]),
    ensures
        (forall|i: int|
            0 <= i < tilesets@.len() ==> spec_tileset_ok(#[trigger] tilesets@[i])) <==> r is Ok,
        r matches Ok(v) ==> v@.len() == tilesets@.len() && forall|i: int|
            0 <= i < tilesets@.len() ==> tileset_matches(#[trigger] v@[i], tilesets@[i]),
        r matches Err(e) ==> exists|k: int|
            0 <= k < tilesets@.len() && !spec_tileset_ok(#[trigger] tilesets@[k]) && e
                == spec_tileset_err(tilesets@[k]) && forall|j: int|
                0 <= j < k ==> spec_tileset_ok(#[trigger] tilesets@[j]),
{
    let mut results: Vec<SaturnTileset> = Vec::new();
    let mut i: usize = 0;
    while i < tilesets.len()
        invariant
            i <= tilesets@.len(),
            forall|k: int|
                0 <= k < tilesets@.len() ==> tileset_input_bounded(#[trigger] tilesets@[k]),
            results@.len() == i,
            forall|k: int| 0 <= k < i ==> spec_tileset_ok(#[trigger] tilesets@[k]),
            forall|k: int|
                0 <= k < i ==> tileset_matches(#[trigger] results@[k], tilesets@[k]),
        decreases tilesets@.len() - i,
    {
        let encoded = match encode_tileset(&tilesets[i]) {
            Ok(t) => t,
            Err(e) => {
                return Err(e);
            },
        };
        results.push(encoded);
        i += 1;
    }
    Ok(results)
}
}

} // verus!
