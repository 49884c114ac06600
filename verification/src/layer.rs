//! Pattern-name layer encoding: per-cell pattern-name words, page-major
//! traversal, flip and transparency flags, and the layer segment's
//! serialized form.
//!
//! A layer segment is laid out big-endian as: id, size, width, height,
//! tileset index, flip flag, transparency flag, pattern-data byte
//! length, pattern data. The size field counts the whole segment.

use vstd::prelude::*;

use vstd::arithmetic::div_mod::lemma_fundamental_div_mod;
use vstd::arithmetic::div_mod::lemma_fundamental_div_mod_converse;
use vstd::arithmetic::mul::lemma_mul_inequality;

use crate::bytes::bool_byte;
use crate::bytes::push_bool;
use crate::bytes::push_u16_be;
use crate::bytes::push_u32_be;
use crate::bytes::u16_be;
use crate::bytes::u32_be;
use crate::errors::SaturnError;
use crate::model::any_populated;
use crate::model::TileCell;
use crate::model::TileGrid;
use crate::tileset::SaturnTileset;

verus! {

/// Serialized bytes of a layer segment before the pattern data.
pub const LAYER_FIXED_LEN: u32 = 24;

/// One encoded pattern-name layer, ready to serialize.
#[derive(Debug, PartialEq, Eq)]
pub struct SaturnLayer {
    /// Layer id from the source map.
    pub id: u32,
    /// Total serialized length of this segment, size field included.
    pub layer_size: u32,
    /// Layer width in tiles.
    pub width: u32,
    /// Layer height in tiles.
    pub height: u32,
    /// Position of the one tileset this layer references.
    pub tileset_index: u16,
    /// Set when any cell carries any flip flag.
    pub tile_flip_enabled: bool,
    /// Set when any earlier-processed layer has any populated cell.
    pub tile_transparency_enabled: bool,
    /// Pattern-name data, page-major.
    pub pattern_name_data: Vec<u8>,
}

impl SaturnLayer {
    /// Exact serialized length of this segment.
    pub open spec fn ser_len(&self) -> int {
        LAYER_FIXED_LEN + self.pattern_name_data@.len()
    }

    /// The size field was frozen to the segment's exact serialized length.
    pub open spec fn wf(&self) -> bool {
        self.layer_size == self.ser_len()
    }

    /// The serialized byte stream of this segment.
    pub open spec fn ser(&self) -> Seq<u8> {
        u32_be(self.id) + u32_be(self.layer_size) + u32_be(self.width) + u32_be(self.height)
            + u16_be(self.tileset_index) + seq![bool_byte(self.tile_flip_enabled)] + seq![
            bool_byte(self.tile_transparency_enabled),
        ] + u32_be(self.pattern_name_data@.len() as u32) + self.pattern_name_data@
    }

    /// Appends the serialized segment.
    pub fn write_into(&self, out: &mut Vec<u8>)
        requires
            self.wf(),
        ensures
            final(out)@ == old(out)@ + self.ser(),
    {
        push_u32_be(out, self.id);
        push_u32_be(out, self.layer_size);
        push_u32_be(out, self.width);
        push_u32_be(out, self.height);
        push_u16_be(out, self.tileset_index);
        push_bool(out, self.tile_flip_enabled);
        push_bool(out, self.tile_transparency_enabled);
        push_u32_be(out, self.pattern_name_data.len() as u32);
        out.extend_from_slice(self.pattern_name_data.as_slice());
        assert(out@ =~= old(out)@ + self.ser());
    }
}

/// The raw id a cell feeds into its pattern-name word: the tile id, or
/// an all-ones sentinel for an empty cell.
pub open spec fn cell_in_val(cell: Option<TileCell>) -> u32 {
    match cell {
        Option::Some(c) => c.tile_id,
        Option::None => u32::MAX,
    }
}

/// A cell's horizontal flip flag (an empty cell has none).
pub open spec fn cell_flip_h(cell: Option<TileCell>) -> bool {
    match cell {
        Option::Some(c) => c.flip_h,
        Option::None => false,
    }
}

/// A cell's vertical flip flag (an empty cell has none).
pub open spec fn cell_flip_v(cell: Option<TileCell>) -> bool {
    match cell {
        Option::Some(c) => c.flip_v,
        Option::None => false,
    }
}

/// The 16-bit pattern-name word of one cell: the raw id shifted into a
/// ten-bit field by the depth (11bpp by 2, 8bpp by 1, 4bpp unshifted)
/// and masked to 0x3FF, flip bits 10 and 11, and, for a populated cell,
/// the map-wide tile-id bias added.
pub open spec fn pnd_word16(cell: Option<TileCell>, bpp: u16, cti: u16) -> u16 {
    let id16 = cell_in_val(cell) as u16;
    let base: u16 = if bpp == 11 {
        (id16 << 2) & 0x3ff
    } else if bpp == 8 {
        (id16 << 1) & 0x3ff
    } else if bpp == 4 {
        id16 & 0x3ff
    } else {
        0
    };
    let v1: u16 = if cell_flip_h(cell) {
        base | 0x400
    } else {
        base
    };
    let v2: u16 = if cell_flip_v(cell) {
        v1 | 0x800
    } else {
        v1
    };
    if cell is Some {
        (v2 + cti) as u16
    } else {
        v2
    }
}

/// The 32-bit pattern-name word of one cell: the low fifteen id bits
/// shifted left once; either flip flag sets the same bit 30.
pub open spec fn pnd_word32(cell: Option<TileCell>) -> u32 {
    let v: u32 = (cell_in_val(cell) & 0x7fff) << 1;
    if cell_flip_h(cell) || cell_flip_v(cell) {
        v | 0x4000_0000
    } else {
        v
    }
}

/// The bytes one cell contributes: a 16-bit big-endian word when the
/// palette word size is 1, else a 32-bit one.
pub open spec fn pnd_entry(cell: Option<TileCell>, words: u8, bpp: u16, cti: u16) -> Seq<u8> {
    if words == 1 {
        u16_be(pnd_word16(cell, bpp, cti))
    } else {
        u32_be(pnd_word32(cell))
    }
}

/// Tile x-coordinate of the `k`-th emitted cell: pages `p` tiles square
/// traversed row-major, cells row-major within a page, `pcols` pages
/// per page row.
pub open spec fn pnd_x(pcols: int, p: int, k: int) -> int {
    (k / (p * p) % pcols) * p + (k % (p * p)) % p
}

/// Tile y-coordinate of the `k`-th emitted cell.
pub open spec fn pnd_y(pcols: int, p: int, k: int) -> int {
    (k / (p * p) / pcols) * p + (k % (p * p)) / p
}

/// The bytes of the first `n` emitted cells.
pub open spec fn pnd_prefix(
    cells: Seq<Option<TileCell>>,
    w: int,
    pcols: int,
    p: int,
    words: u8,
    bpp: u16,
    cti: u16,
    n: int,
) -> Seq<u8>
    decreases n,
{
    if n <= 0 {
        Seq::empty()
    } else {
        pnd_prefix(cells, w, pcols, p, words, bpp, cti, n - 1) + pnd_entry(
            cells[pnd_y(pcols, p, n - 1) * w + pnd_x(pcols, p, n - 1)],
            words,
            bpp,
            cti,
        )
    }
}

/// The page size a tileset's tile size selects: 32 tiles for 16x16,
/// 64 for 8x8.
pub open spec fn spec_page_size(t: SaturnTileset) -> Option<u32> {
    if t.tile_height == 16 && t.tile_width == 16 {
        Some(32u32)
    } else if t.tile_height == 8 && t.tile_width == 8 {
        Some(64u32)
    } else {
        None
    }
}

/// The whole pattern-name byte stream of a grid: whole pages only,
/// `(h / p) * (w / p)` pages of `p * p` cells each.
pub open spec fn spec_pnd_bytes(
    cells: Seq<Option<TileCell>>,
    w: int,
    h: int,
    p: int,
    words: u8,
    bpp: u16,
    cti: u16,
) -> Seq<u8> {
    pnd_prefix(cells, w, w / p, p, words, bpp, cti, ((h / p) * (w / p)) * (p * p))
}

/// The tile-id bias of the tileset at position `n`: the truncated tile
/// counts of all tilesets before it, summed.
pub open spec fn sum_tile_counts(tilesets: Seq<SaturnTileset>, n: int) -> int
    decreases n,
{
    if n <= 0 {
        0
    } else {
        sum_tile_counts(tilesets, n - 1) + (tilesets[n - 1].tile_count as u16)
    }
}

/// Prefix sums of tile counts never exceed the whole sum.
pub proof fn lemma_sum_counts_monotone(tilesets: Seq<SaturnTileset>, a: int, b: int)
    requires
        a <= b,
    ensures
        sum_tile_counts(tilesets, a) <= sum_tile_counts(tilesets, b),
    decreases b - a,
{
    if a < b {
        lemma_sum_counts_monotone(tilesets, a, b - 1);
    }
}

/// Bit-level bounds of the 16-bit pattern-name word parts.
proof fn lemma_pnd16_bounds()
    by (bit_vector)
    ensures
        forall|x: u16| #[trigger] (x & 0x3ff) <= 0x3ff,
        forall|v: u16| v <= 0xfff ==> #[trigger] (v | 0x400) <= 0xfff,
        forall|v: u16| v <= 0xfff ==> #[trigger] (v | 0x800) <= 0xfff,
{
}

impl SaturnLayer {
    /// Emits the pattern-name data of the grid: pages row-major across
    /// the layer, cells row-major within each page; tiles beyond the
    /// last whole page are dropped.
    pub fn get_pattern_name_data(&self, grid: &TileGrid, tilesets: &Vec<SaturnTileset>) -> (r:
        Result<Vec<u8>, SaturnError>)
        requires
            (self.tileset_index as int) < tilesets@.len(),
            grid.wf(),
            self.width == grid.width,
            self.height == grid.height,
            grid.width <= 0x4000,
            grid.height <= 0x4000,
            sum_tile_counts(tilesets@, tilesets@.len() as int) <= 0xF000,
        ensures
            spec_page_size(tilesets@[self.tileset_index as int]) is None ==> r == Err::<
                Vec<u8>,
                SaturnError,
            >(SaturnError::UnsupportedTileSizeForLayer),
            spec_page_size(tilesets@[self.tileset_index as int]) matches Some(p) ==> (r matches Ok(
                v,
            ) && v@ == spec_pnd_bytes(
                grid.cells@,
                grid.width as int,
                grid.height as int,
                p as int,
                tilesets@[self.tileset_index as int].words_per_palette,
                tilesets@[self.tileset_index as int].bpp,
                sum_tile_counts(tilesets@, self.tileset_index as int) as u16,
            )),
    {
        let tileset = &tilesets[self.tileset_index as usize];
        let mut current_tile_index: u16 = 0;
        let mut ti: usize = 0;
        while ti < self.tileset_index as usize
            invariant
                ti <= self.tileset_index as usize,
                (self.tileset_index as int) < tilesets@.len(),
                sum_tile_counts(tilesets@, tilesets@.len() as int) <= 0xF000,
                current_tile_index == sum_tile_counts(tilesets@, ti as int),
            decreases self.tileset_index as usize - ti,
        {
            proof {
                lemma_sum_counts_monotone(tilesets@, ti as int + 1, tilesets@.len() as int);
                assert(sum_tile_counts(tilesets@, ti as int + 1) == sum_tile_counts(
                    tilesets@,
                    ti as int,
                ) + (tilesets@[ti as int].tile_count as u16));
            }
            current_tile_index = current_tile_index + (tilesets[ti].tile_count as u16);
            ti += 1;
        }
        proof {
            lemma_sum_counts_monotone(
                tilesets@,
                self.tileset_index as int,
                tilesets@.len() as int,
            );
        }
        let page: u32 = if tileset.tile_height == 16 && tileset.tile_width == 16 {
            32
        } else if tileset.tile_height == 8 && tileset.tile_width == 8 {
            64
        } else {
            return Err(SaturnError::UnsupportedTileSizeForLayer);
        };
        let number_of_maps_y: u32 = self.height / page;
        let number_of_maps_x: u32 = self.width / page;
        let ghost cells = grid.cells@;
        let ghost w = self.width as int;
        let ghost h = self.height as int;
        let ghost p = page as int;
        let ghost pc = number_of_maps_x as int;
        let ghost pr = number_of_maps_y as int;
        let ghost words = tileset.words_per_palette;
        let ghost bpp = tileset.bpp;
        let ghost cti = current_tile_index;
        proof {
            lemma_fundamental_div_mod(w, p);
            vstd::arithmetic::div_mod::lemma_mod_bound(w, p);
            lemma_fundamental_div_mod(h, p);
            vstd::arithmetic::div_mod::lemma_mod_bound(h, p);
        }
        let mut results: Vec<u8> = Vec::new();
        proof {
            assert((0int * pc) * (p * p) == 0) by (nonlinear_arith);
        }
        let mut map_index_y: u32 = 0;
        while map_index_y < number_of_maps_y
            invariant
                map_index_y <= number_of_maps_y,
                page == 32 || page == 64,
                p == page,
                w == self.width,
                h == self.height,
                pc == number_of_maps_x,
                pr == number_of_maps_y,
                pc == w / p,
                pr == h / p,
                p * pr <= h,
                p * pc <= w,
                grid.wf(),
                cells == grid.cells@,
                grid.width == self.width,
                grid.height == self.height,
                self.width <= 0x4000,
                self.height <= 0x4000,
                words == tileset.words_per_palette,
                bpp == tileset.bpp,
                cti == current_tile_index,
                cti <= 0xF000,
                results@ == pnd_prefix(
                    cells,
                    w,
                    pc,
                    p,
                    words,
                    bpp,
                    cti,
                    (map_index_y as int * pc) * (p * p),
                ),
            decreases number_of_maps_y - map_index_y,
        {
            proof {
                lemma_mul_inequality(map_index_y as int + 1, pr, p);
                assert((map_index_y as int + 1) * p == map_index_y as int * p + p)
                    by (nonlinear_arith);
                assert(p * (map_index_y as int + 1) == (map_index_y as int + 1) * p)
                    by (nonlinear_arith);
                assert(pr * p == p * pr) by (nonlinear_arith);
                assert(map_index_y as int * p == p * map_index_y as int) by (nonlinear_arith);
            }
            let start_y_offset: u32 = page * map_index_y;
            let end_y_offset: u32 = page * map_index_y + page;
            let mut map_index_x: u32 = 0;
            while map_index_x < number_of_maps_x
                invariant
                    map_index_x <= number_of_maps_x,
                    map_index_y < number_of_maps_y,
                    start_y_offset == page * map_index_y,
                    end_y_offset == start_y_offset + page,
                    end_y_offset <= self.height,
                    page == 32 || page == 64,
                    p == page,
                    w == self.width,
                    h == self.height,
                    pc == number_of_maps_x,
                    pr == number_of_maps_y,
                    pc == w / p,
                    pr == h / p,
                    p * pr <= h,
                    p * pc <= w,
                    grid.wf(),
                    cells == grid.cells@,
                    grid.width == self.width,
                    grid.height == self.height,
                    self.width <= 0x4000,
                    self.height <= 0x4000,
                    words == tileset.words_per_palette,
                    bpp == tileset.bpp,
                    cti == current_tile_index,
                    cti <= 0xF000,
                    results@ == pnd_prefix(
                        cells,
                        w,
                        pc,
                        p,
                        words,
                        bpp,
                        cti,
                        ((map_index_y as int * pc) + map_index_x as int) * (p * p),
                    ),
                decreases number_of_maps_x - map_index_x,
            {
                proof {
                    lemma_mul_inequality(map_index_x as int + 1, pc, p);
                    assert((map_index_x as int + 1) * p == map_index_x as int * p + p)
                        by (nonlinear_arith);
                    assert(p * (map_index_x as int + 1) == (map_index_x as int + 1) * p)
                        by (nonlinear_arith);
                    assert(pc * p == p * pc) by (nonlinear_arith);
                    assert(map_index_x as int * p == p * map_index_x as int) by (nonlinear_arith);
                }
                let start_x_offset: u32 = page * map_index_x;
                let end_x_offset: u32 = page * map_index_x + page;
                let mut y: u32 = start_y_offset;
                while y < end_y_offset
                    invariant
                        start_y_offset <= y <= end_y_offset,
                        start_y_offset == page * map_index_y,
                        end_y_offset == start_y_offset + page,
                        end_y_offset <= self.height,
                        start_x_offset == page * map_index_x,
                        end_x_offset == start_x_offset + page,
                        end_x_offset <= self.width,
                        map_index_x < number_of_maps_x,
                        map_index_y < number_of_maps_y,
                        page == 32 || page == 64,
                        p == page,
                        w == self.width,
                        h == self.height,
                        pc == number_of_maps_x,
                        pr == number_of_maps_y,
                        pc == w / p,
                        pr == h / p,
                        grid.wf(),
                        cells == grid.cells@,
                        grid.width == self.width,
                        grid.height == self.height,
                        self.width <= 0x4000,
                        self.height <= 0x4000,
                        words == tileset.words_per_palette,
                        bpp == tileset.bpp,
                        cti == current_tile_index,
                        cti <= 0xF000,
                        results@ == pnd_prefix(
                            cells,
                            w,
                            pc,
                            p,
                            words,
                            bpp,
                            cti,
                            ((map_index_y as int * pc) + map_index_x as int) * (p * p) + (y
                                - start_y_offset) * p,
                        ),
                    decreases end_y_offset - y,
                {
                    let mut x: u32 = start_x_offset;
                    while x < end_x_offset
                        invariant
                            start_x_offset <= x <= end_x_offset,
                            start_y_offset <= y < end_y_offset,
                            start_y_offset == page * map_index_y,
                            end_y_offset == start_y_offset + page,
                            end_y_offset <= self.height,
                            start_x_offset == page * map_index_x,
                            end_x_offset == start_x_offset + page,
                            end_x_offset <= self.width,
                            map_index_x < number_of_maps_x,
                            map_index_y < number_of_maps_y,
                            page == 32 || page == 64,
                            p == page,
                            w == self.width,
                            h == self.height,
                            pc == number_of_maps_x,
                            pr == number_of_maps_y,
                            pc == w / p,
                            pr == h / p,
                            grid.wf(),
                            cells == grid.cells@,
                            grid.width == self.width,
                            grid.height == self.height,
                            self.width <= 0x4000,
                            self.height <= 0x4000,
                            words == tileset.words_per_palette,
                            bpp == tileset.bpp,
                            cti == current_tile_index,
                            cti <= 0xF000,
                            results@ == pnd_prefix(
                                cells,
                                w,
                                pc,
                                p,
                                words,
                                bpp,
                                cti,
                                ((map_index_y as int * pc) + map_index_x as int) * (p * p) + (y
                                    - start_y_offset) * p + (x - start_x_offset),
                            ),
                        decreases end_x_offset - x,
                    {
                        let ghost k = ((map_index_y as int * pc) + map_index_x as int) * (p * p)
                            + (y - start_y_offset) * p + (x - start_x_offset);
                        proof {
                            let area = ((map_index_y as int * pc) + map_index_x as int);
                            let dy = y - start_y_offset;
                            let dx = x - start_x_offset;
                            assert(0 <= dy * p + dx < p * p) by (nonlinear_arith)
                                requires
                                    0 <= dy < p,
                                    0 <= dx < p,
                            ;
                            lemma_fundamental_div_mod_converse(k, p * p, area, dy * p + dx);
                            lemma_fundamental_div_mod_converse(dy * p + dx, p, dy, dx);
                            lemma_fundamental_div_mod_converse(
                                area,
                                pc,
                                map_index_y as int,
                                map_index_x as int,
                            );
                            assert(pnd_x(pc, p, k) == x);
                            assert(pnd_y(pc, p, k) == y);
                            lemma_mul_inequality(y as int, h - 1, w);
                            assert(y as int * w == w * y as int) by (nonlinear_arith);
                            assert((h - 1) * w == w * (h - 1)) by (nonlinear_arith);
                            assert(w * (h - 1) + w == w * h) by (nonlinear_arith);
                            vstd::arithmetic::mul::lemma_mul_nonnegative(y as int, w);
                            assert(w * h <= 0x1000_0000) by (nonlinear_arith)
                                requires
                                    0 <= w <= 0x4000,
                                    0 <= h <= 0x4000,
                            ;
                        }
                        let cell_index: usize = (y as usize) * (grid.width as usize) + (
                        x as usize);
                        let (tile_id, flip_h, flip_v, populated): (u32, bool, bool, bool) =
                            match &grid.cells[cell_index] {
                            Option::Some(c) => (c.tile_id, c.flip_h, c.flip_v, true),
                            Option::None => (u32::MAX, false, false, false),
                        };
                        if tileset.words_per_palette == 1 {
                            let id16: u16 = #[verifier::truncate] (tile_id as u16);
                            let mut out_val: u16 = if tileset.bpp == 11 {
                                (id16 << 2) & 0x3ff
                            } else if tileset.bpp == 8 {
                                (id16 << 1) & 0x3ff
                            } else if tileset.bpp == 4 {
                                id16 & 0x3ff
                            } else {
                                0
                            };
                            proof {
                                lemma_pnd16_bounds();
                            }
                            assert(out_val <= 0xfff);
                            if flip_h {
                                out_val = out_val | 0x400;
                            }
                            assert(out_val <= 0xfff);
                            if flip_v {
                                out_val = out_val | 0x800;
                            }
                            assert(out_val <= 0xfff);
                            if populated {
                                out_val = out_val + current_tile_index;
                            }
                            push_u16_be(&mut results, out_val);
                        } else {
                            let mut out_val: u32 = (tile_id & 0x7fff) << 1;
                            if flip_h || flip_v {
                                out_val = out_val | 0x4000_0000;
                            }
                            push_u32_be(&mut results, out_val);
                        }
                        proof {
                            assert(results@ == pnd_prefix(
                                cells,
                                w,
                                pc,
                                p,
                                words,
                                bpp,
                                cti,
                                k + 1,
                            ));
                        }
                        x += 1;
                    }
                    y += 1;
                }
                proof {
                    let area = ((map_index_y as int * pc) + map_index_x as int);
                    assert(area * (p * p) + p * p == (area + 1) * (p * p)) by (nonlinear_arith);
                }
                map_index_x += 1;
            }
            proof {
                assert((map_index_y as int * pc) + pc == (map_index_y as int + 1) * pc)
                    by (nonlinear_arith);
            }
            map_index_y += 1;
        }
        proof {
            assert((pr * pc) * (p * p) == ((h / p) * (w / p)) * (p * p));
        }
        Ok(results)
    }
}

/// Does a cell carry any flip flag?
pub open spec fn cell_has_flip(c: TileCell) -> bool {
    c.flip_d || c.flip_h || c.flip_v
}

/// Does any cell of the grid carry any flip flag?
pub open spec fn any_flip(cells: Seq<Option<TileCell>>) -> bool {
    exists|i: int| 0 <= i < cells.len() && (#[trigger] cells[i] matches Some(c) && cell_has_flip(c))
}

/// Do all populated cells reference one tileset?
pub open spec fn uni_tileset(cells: Seq<Option<TileCell>>) -> bool {
    forall|i: int, j: int|
        0 <= i < cells.len() && 0 <= j < cells.len() && #[trigger] cells[i] is Some
            && #[trigger] cells[j] is Some ==> cells[i].unwrap().tileset_index
            == cells[j].unwrap().tileset_index
}

/// Position of the first populated cell.
pub open spec fn first_populated(cells: Seq<Option<TileCell>>) -> int
    decreases cells.len(),
{
    if cells.len() == 0 {
        0
    } else if cells[0] is Some {
        0
    } else {
        1 + first_populated(cells.subrange(1, cells.len() as int))
    }
}

/// The tileset the grid references: the first populated cell's, narrowed
/// to the 16-bit index field.
pub open spec fn grid_tsidx16(cells: Seq<Option<TileCell>>) -> u16 {
    cells[first_populated(cells)].unwrap().tileset_index as u16
}

/// A populated grid's first populated cell is a valid position, holds a
/// tile, and nothing before it does.
pub proof fn lemma_first_populated(cells: Seq<Option<TileCell>>)
    requires
        any_populated(cells),
    ensures
        0 <= first_populated(cells) < cells.len(),
        cells[first_populated(cells)] is Some,
        forall|k: int| 0 <= k < first_populated(cells) ==> cells[k] is None,
    decreases cells.len(),
{
    if cells[0] is Some {
    } else {
        let t = cells.subrange(1, cells.len() as int);
        let i = choose|i: int| 0 <= i < cells.len() && cells[i] is Some;
        assert(t[i - 1] is Some);
        assert(any_populated(t));
        lemma_first_populated(t);
        assert(forall|k: int|
            1 <= k < first_populated(cells) ==> cells[k] == t[k - 1] && t[k - 1] is None);
    }
}

/// A scan that stops at the first populated cell finds `first_populated`.
pub proof fn lemma_first_populated_found(cells: Seq<Option<TileCell>>, j: int)
    requires
        0 <= j < cells.len(),
        cells[j] is Some,
        forall|k: int| 0 <= k < j ==> cells[k] is None,
    ensures
        first_populated(cells) == j,
    decreases j,
{
    if j > 0 {
        let t = cells.subrange(1, cells.len() as int);
        assert(t[j - 1] is Some);
        assert(forall|k: int| 0 <= k < j - 1 ==> t[k] == cells[k + 1] && cells[k + 1] is None);
        lemma_first_populated_found(t, j - 1);
    }
}

/// Does any cell of the grid hold a tile?
pub fn layer_any_populated(grid: &TileGrid) -> (r: bool)
    ensures
        r == any_populated(grid.cells@),
{
    let mut i: usize = 0;
    while i < grid.cells.len()
        invariant
            i <= grid.cells@.len(),
            forall|k: int| 0 <= k < i ==> grid.cells@[k] is None,
        decreases grid.cells@.len() - i,
    {
        match &grid.cells[i] {
            Option::Some(_) => {
                assert(grid.cells@[i as int] is Some);
                return true;
            },
            Option::None => {},
        }
        i += 1;
    }
    false
}

/// Does any cell of the grid carry a flip flag?
pub fn tile_flip_enabled(grid: &TileGrid) -> (r: bool)
    ensures
        r == any_flip(grid.cells@),
{
    let mut i: usize = 0;
    while i < grid.cells.len()
        invariant
            i <= grid.cells@.len(),
            forall|k: int|
                0 <= k < i ==> !(#[trigger] grid.cells@[k] matches Some(c) && cell_has_flip(c)),
        decreases grid.cells@.len() - i,
    {
        match &grid.cells[i] {
            Option::Some(c) => {
                if c.flip_d || c.flip_h || c.flip_v {
                    assert(grid.cells@[i as int] matches Some(cc) && cell_has_flip(cc));
                    return true;
                }
            },
            Option::None => {},
        }
        i += 1;
    }
    false
}

/// The position, in the map's tileset list, of the one tileset the
/// grid's populated cells reference. A grid with no populated cell, or
/// with cells from two tilesets, is a mixed-tileset error.
pub fn tileset_index_for_layer(grid: &TileGrid) -> (r: Result<u16, SaturnError>)
    ensures
        (any_populated(grid.cells@) && uni_tileset(grid.cells@)) ==> r == Ok::<u16, SaturnError>(
            grid_tsidx16(grid.cells@),
        ),
        !(any_populated(grid.cells@) && uni_tileset(grid.cells@)) ==> r == Err::<
            u16,
            SaturnError,
        >(SaturnError::MixedTilesetError),
{
    let ghost cells = grid.cells@;
    let mut found: bool = false;
    let mut value: usize = 0;
    let ghost mut fi: int = 0;
    let mut i: usize = 0;
    while i < grid.cells.len()
        invariant
            i <= cells.len(),
            cells == grid.cells@,
            !found ==> forall|k: int| 0 <= k < i ==> cells[k] is None,
            found ==> 0 <= fi < i && cells[fi] is Some && cells[fi].unwrap().tileset_index
                == value,
            found ==> forall|k: int| 0 <= k < fi ==> cells[k] is None,
            found ==> forall|k: int|
                0 <= k < i && #[trigger] cells[k] is Some ==> cells[k].unwrap().tileset_index
                    == value,
        decreases cells.len() - i,
    {
        match &grid.cells[i] {
            Option::Some(c) => {
                if !found {
                    found = true;
                    value = c.tileset_index;
                    proof {
                        fi = i as int;
                    }
                } else if c.tileset_index != value {
                    proof {
                        assert(cells[fi] is Some && cells[i as int] is Some && cells[
                        fi].unwrap().tileset_index != cells[i as int].unwrap().tileset_index);
                        assert(!uni_tileset(cells));
                    }
                    return Err(SaturnError::MixedTilesetError);
                }
            },
            Option::None => {},
        }
        i += 1;
    }
    if !found {
        assert(!any_populated(cells));
        return Err(SaturnError::MixedTilesetError);
    }
    proof {
        lemma_first_populated_found(cells, fi);
        assert(cells[fi] is Some);
        assert(any_populated(cells));
    }
    Ok(value as u16)
}

/// The tile-layer grids of the map's layer list, in order.
pub open spec fn tile_grids(layers: Seq<crate::model::LayerInput>) -> Seq<TileGrid>
    decreases layers.len(),
{
    if layers.len() == 0 {
        Seq::empty()
    } else {
        let pre = tile_grids(layers.drop_last());
        match layers.last() {
            crate::model::LayerInput::Tiles { grid } => pre.push(grid),
            _ => pre,
        }
    }
}

/// Splitting the layer list splits its tile grids.
pub proof fn lemma_tile_grids_concat(layers: Seq<crate::model::LayerInput>, m: int)
    requires
        0 <= m <= layers.len(),
    ensures
        tile_grids(layers) =~= tile_grids(layers.take(m)) + tile_grids(layers.skip(m)),
    decreases layers.len(),
{
    if m == layers.len() {
        assert(layers.take(m) =~= layers);
        assert(layers.skip(m) =~= Seq::empty());
        assert(tile_grids(Seq::empty()) =~= Seq::<TileGrid>::empty());
    } else {
        let dl = layers.drop_last();
        lemma_tile_grids_concat(dl, m);
        assert(dl.take(m) =~= layers.take(m));
        assert(layers.skip(m).drop_last() =~= dl.skip(m));
        assert(layers.skip(m).last() == layers.last());
    }
}

/// Machine limits on a tile layer's grid.
pub open spec fn grid_bounded(g: TileGrid) -> bool {
    &&& g.wf()
    &&& g.width <= 0x4000
    &&& g.height <= 0x4000
}

/// Does encoding this grid against these tilesets succeed?
pub open spec fn spec_layer_ok(g: TileGrid, tilesets: Seq<SaturnTileset>) -> bool {
    &&& any_populated(g.cells@)
    &&& uni_tileset(g.cells@)
    &&& spec_page_size(tilesets[grid_tsidx16(g.cells@) as int]) is Some
}

/// The error encoding this grid runs into (meaningful when
/// `spec_layer_ok` fails).
pub open spec fn spec_layer_err(g: TileGrid, tilesets: Seq<SaturnTileset>) -> SaturnError {
    if !(any_populated(g.cells@) && uni_tileset(g.cells@)) {
        SaturnError::MixedTilesetError
    } else {
        SaturnError::UnsupportedTileSizeForLayer
    }
}

/// Is some strictly earlier grid populated anywhere?
pub open spec fn spec_transparency(grids: Seq<TileGrid>, k: int) -> bool {
    exists|j: int| 0 <= j < k && any_populated(grids[j].cells@)
}

/// An encoded layer is exactly what its grid prescribes.
pub open spec fn layer_matches(
    l: SaturnLayer,
    g: TileGrid,
    tilesets: Seq<SaturnTileset>,
    transp: bool,
) -> bool {
    let ts = tilesets[grid_tsidx16(g.cells@) as int];
    &&& l.id == g.id
    &&& l.width == g.width
    &&& l.height == g.height
    &&& l.tileset_index == grid_tsidx16(g.cells@)
    &&& l.tile_flip_enabled == any_flip(g.cells@)
    &&& l.tile_transparency_enabled == transp
    &&& l.pattern_name_data@ == spec_pnd_bytes(
        g.cells@,
        g.width as int,
        g.height as int,
        spec_page_size(ts).unwrap() as int,
        ts.words_per_palette,
        ts.bpp,
        sum_tile_counts(tilesets, grid_tsidx16(g.cells@) as int) as u16,
    )
    &&& l.wf()
}

/// Each emitted cell contributes the same number of bytes.
proof fn lemma_pnd_prefix_len(
    cells: Seq<Option<TileCell>>,
    w: int,
    pcols: int,
    p: int,
    words: u8,
    bpp: u16,
    cti: u16,
    n: int,
)
    requires
        n >= 0,
    ensures
        pnd_prefix(cells, w, pcols, p, words, bpp, cti, n).len() == n * (
        if words == 1 {
            2int
        } else {
            4int
        }),
    decreases n,
{
    let e: int = if words == 1 {
        2
    } else {
        4
    };
    if n > 0 {
        lemma_pnd_prefix_len(cells, w, pcols, p, words, bpp, cti, n - 1);
        assert((n - 1) * e + e == n * e) by (nonlinear_arith);
    } else {
        assert(0 * e == 0) by (nonlinear_arith);
    }
}

/// The pattern-name data is never longer than four bytes per grid cell.
pub proof fn lemma_pnd_total_len(
    cells: Seq<Option<TileCell>>,
    w: int,
    h: int,
    p: int,
    words: u8,
    bpp: u16,
    cti: u16,
)
    requires
        p == 32 || p == 64,
        0 <= w <= 0x4000,
        0 <= h <= 0x4000,
    ensures
        0 <= spec_pnd_bytes(cells, w, h, p, words, bpp, cti).len() <= 4 * (w * h),
        w * h <= 0x1000_0000,
{
    let total = ((h / p) * (w / p)) * (p * p);
    vstd::arithmetic::div_mod::lemma_div_pos_is_pos(h, p);
    vstd::arithmetic::div_mod::lemma_div_pos_is_pos(w, p);
    lemma_fundamental_div_mod(h, p);
    vstd::arithmetic::div_mod::lemma_mod_bound(h, p);
    lemma_fundamental_div_mod(w, p);
    vstd::arithmetic::div_mod::lemma_mod_bound(w, p);
    vstd::arithmetic::mul::lemma_mul_nonnegative(h / p, w / p);
    vstd::arithmetic::mul::lemma_mul_nonnegative((h / p) * (w / p), p * p);
    lemma_pnd_prefix_len(cells, w, w / p, p, words, bpp, cti, total);
    assert(total <= w * h && w * h <= 0x1000_0000) by (nonlinear_arith)
        requires
            total == ((h / p) * (w / p)) * (p * p),
            0 <= p * (h / p) <= h,
            0 <= p * (w / p) <= w,
            0 <= w <= 0x4000,
            0 <= h <= 0x4000,
            p > 0,
            h / p >= 0,
            w / p >= 0,
    ;
    assert(total * (if words == 1 {
        2int
    } else {
        4int
    }) <= 4 * (w * h)) by (nonlinear_arith)
        requires
            0 <= total <= w * h,
            0 <= w * h,
    ;
}

impl SaturnLayer {
/// Encodes every tile layer of the map, in processing order, stopping
/// at the first failure. A layer's transparency flag records whether
/// any earlier tile layer had any populated cell.
pub fn build(
    layers: &Vec<crate::model::LayerInput>,
    tilesets: &Vec<SaturnTileset>,
) -> (r: Result<Vec<SaturnLayer>, SaturnError>)
    requires
        forall|i: int|
            0 <= i < layers@.len() ==> (#[trigger] layers@[i] matches
                crate::model::LayerInput::Tiles { grid } ==> grid_bounded(grid)),
        forall|i: int|
            0 <= i < layers@.len() ==> (#[trigger] layers@[i] matches
                crate::model::LayerInput::Tiles { grid } ==> ((any_populated(grid.cells@)
                && uni_tileset(grid.cells@)) ==> (grid_tsidx16(grid.cells@) as int)
                < tilesets@.len())),
        sum_tile_counts(tilesets@, tilesets@.len() as int) <= 0xF000,
    ensures
        ((forall|k: int|
            0 <= k < tile_grids(layers@).len() ==> spec_layer_ok(
                #[trigger] tile_grids(layers@)[k],
                tilesets@,
            )) <==> r is Ok),
        r matches Ok(v) ==> v@.len() == tile_grids(layers@).len() && forall|k: int|
            0 <= k < tile_grids(layers@).len() ==> layer_matches(
                #[trigger] v@[k],
                tile_grids(layers@)[k],
                tilesets@,
                spec_transparency(tile_grids(layers@), k),
            ),
        r matches Err(e) ==> exists|k: int|
            0 <= k < tile_grids(layers@).len() && !spec_layer_ok(
                #[trigger] tile_grids(layers@)[k],
                tilesets@,
            ) && e == spec_layer_err(tile_grids(layers@)[k], tilesets@) && (forall|j: int|
                0 <= j < k ==> spec_layer_ok(tile_grids(layers@)[j], tilesets@)),
{
    let mut results: Vec<SaturnLayer> = Vec::new();
    let mut seen_populated: bool = false;
    let mut i: usize = 0;
    while i < layers.len()
        invariant
            i <= layers@.len(),
            forall|k: int|
                0 <= k < layers@.len() ==> (#[trigger] layers@[k] matches
                    crate::model::LayerInput::Tiles { grid } ==> grid_bounded(grid)),
            forall|k: int|
                0 <= k < layers@.len() ==> (#[trigger] layers@[k] matches
                    crate::model::LayerInput::Tiles { grid } ==> ((any_populated(grid.cells@)
                    && uni_tileset(grid.cells@)) ==> (grid_tsidx16(grid.cells@) as int)
                    < tilesets@.len())),
            sum_tile_counts(tilesets@, tilesets@.len() as int) <= 0xF000,
            results@.len() == tile_grids(layers@.take(i as int)).len(),
            forall|k: int|
                0 <= k < results@.len() ==> spec_layer_ok(
                    #[trigger] tile_grids(layers@.take(i as int))[k],
                    tilesets@,
                ),
            forall|k: int|
                0 <= k < results@.len() ==> layer_matches(
                    #[trigger] results@[k],
                    tile_grids(layers@.take(i as int))[k],
                    tilesets@,
                    spec_transparency(tile_grids(layers@.take(i as int)), k),
                ),
            seen_populated == spec_transparency(
                tile_grids(layers@.take(i as int)),
                tile_grids(layers@.take(i as int)).len() as int,
            ),
        decreases layers@.len() - i,
    {
        let ghost partial = tile_grids(layers@.take(i as int));
        proof {
            assert(layers@.take(i as int + 1).drop_last() =~= layers@.take(i as int));
            assert(layers@.take(i as int + 1).last() == layers@[i as int]);
        }
        match &layers[i] {
            crate::model::LayerInput::Tiles { grid } => {
                let ghost g = partial.len() as int;
                proof {
                    assert(tile_grids(layers@.take(i as int + 1)) =~= partial.push(*grid));
                    lemma_tile_grids_concat(layers@, i as int + 1);
                    assert(tile_grids(layers@)[g] == *grid);
                    assert(forall|k: int| 0 <= k < g ==> tile_grids(layers@)[k] == partial[k]);
                }
                let tileset_index = match tileset_index_for_layer(grid) {
                    Ok(v) => v,
                    Err(e) => {
                        proof {
                            assert(!spec_layer_ok(tile_grids(layers@)[g], tilesets@));
                            assert(e == spec_layer_err(tile_grids(layers@)[g], tilesets@));
                        }
                        return Err(e);
                    },
                };
                let flip = tile_flip_enabled(grid);
                let mut layer = SaturnLayer {
                    id: grid.id,
                    layer_size: 0,
                    width: grid.width,
                    height: grid.height,
                    tileset_index,
                    tile_flip_enabled: flip,
                    tile_transparency_enabled: seen_populated,
                    pattern_name_data: Vec::new(),
                };
                let pnd = match layer.get_pattern_name_data(grid, tilesets) {
                    Ok(v) => v,
                    Err(e) => {
                        proof {
                            assert(!spec_layer_ok(tile_grids(layers@)[g], tilesets@));
                            assert(e == spec_layer_err(tile_grids(layers@)[g], tilesets@));
                        }
                        return Err(e);
                    },
                };
                proof {
                    let ts = tilesets@[grid_tsidx16(grid.cells@) as int];
                    lemma_pnd_total_len(
                        grid.cells@,
                        grid.width as int,
                        grid.height as int,
                        spec_page_size(ts).unwrap() as int,
                        ts.words_per_palette,
                        ts.bpp,
                        sum_tile_counts(tilesets@, grid_tsidx16(grid.cells@) as int) as u16,
                    );
                }
                layer.pattern_name_data = pnd;
                layer.layer_size = LAYER_FIXED_LEN + (layer.pattern_name_data.len() as u32);
                results.push(layer);
                proof {
                    assert(spec_transparency(partial.push(*grid), g + 1) == (seen_populated
                        || any_populated(grid.cells@))) by {
                        if seen_populated {
                            let j = choose|j: int| 0 <= j < g && any_populated(partial[j].cells@);
                            assert(any_populated(partial.push(*grid)[j].cells@));
                        }
                        if any_populated(grid.cells@) {
                            assert(any_populated(partial.push(*grid)[g].cells@));
                        }
                        if spec_transparency(partial.push(*grid), g + 1) {
                            let j = choose|j: int|
                                0 <= j < g + 1 && any_populated(partial.push(*grid)[j].cells@);
                            if j < g {
                                assert(any_populated(partial[j].cells@));
                            }
                        }
                    }
                    assert(forall|k: int|
                        0 <= k < g ==> spec_transparency(partial.push(*grid), k)
                            == spec_transparency(partial, k)) by {
                        assert forall|k: int| 0 <= k < g implies spec_transparency(
                            partial.push(*grid),
                            k,
                        ) == spec_transparency(partial, k) by {
                            if spec_transparency(partial.push(*grid), k) {
                                let j = choose|j: int|
                                    0 <= j < k && any_populated(partial.push(*grid)[j].cells@);
                                assert(any_populated(partial[j].cells@));
                            }
                            if spec_transparency(partial, k) {
                                let j = choose|j: int|
                                    0 <= j < k && any_populated(partial[j].cells@);
                                assert(any_populated(partial.push(*grid)[j].cells@));
                            }
                        }
                    }
                }
                if !seen_populated {
                    seen_populated = layer_any_populated(grid);
                }
            },
            _ => {
                proof {
                    assert(tile_grids(layers@.take(i as int + 1)) =~= partial);
                }
            },
        }
        i += 1;
    }
    proof {
        assert(layers@.take(layers@.len() as int) =~= layers@);
    }
    Ok(results)
}
}

} // verus!
