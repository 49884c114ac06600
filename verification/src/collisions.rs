//! Collision extraction: one cell per map grid coordinate, row-major,
//! filled from rectangle objects attached to tiles. When several layers
//! (or several objects of one tile) write the same cell, the
//! later-processed one wins; nothing is merged.
//!
//! A collision cell is laid out big-endian as: type byte, size, point
//! count, then two bytes per point. The size field counts the whole
//! cell, itself included.

use vstd::prelude::*;

use vstd::arithmetic::div_mod::lemma_fundamental_div_mod_converse;
use vstd::arithmetic::mul::lemma_mul_inequality;

use crate::bytes::push_u32_be;
use crate::bytes::u32_be;
use crate::model::LayerInput;
use crate::model::ObjectShape;
use crate::model::TileGrid;
use crate::layer::tile_grids;

verus! {

/// Serialized bytes of a collision cell before its points.
pub const COLLISION_FIXED_LEN: u32 = 9;

/// The shape kind a collision cell holds.
#[derive(Debug, Clone, Copy, PartialEq, Eq, Structural)]
pub enum CollisionType {
    /// No collision data.
    Empty,
    /// An axis-aligned rectangle, stored as four corners.
    Rect,
    /// Declared by the format, never produced.
    Polygon,
}

/// The byte a collision type serializes to.
pub open spec fn type_byte(t: CollisionType) -> u8 {
    match t {
        CollisionType::Empty => 0u8,
        CollisionType::Rect => 1u8,
        CollisionType::Polygon => 2u8,
    }
}

/// The serialized bytes of a point list: x then y, point by point.
pub open spec fn points_bytes(points: Seq<(u8, u8)>) -> Seq<u8>
    decreases points.len(),
{
    if points.len() == 0 {
        Seq::empty()
    } else {
        points_bytes(points.drop_last()) + seq![points.last().0, points.last().1]
    }
}

/// Two bytes per point.
pub proof fn lemma_points_bytes_len(points: Seq<(u8, u8)>)
    ensures
        points_bytes(points).len() == 2 * points.len(),
    decreases points.len(),
{
    if points.len() > 0 {
        lemma_points_bytes_len(points.drop_last());
    }
}

/// One collision cell, ready to serialize.
#[derive(Debug, PartialEq, Eq)]
pub struct SaturnCollision {
    /// The shape kind.
    pub collision_type: CollisionType,
    /// Total serialized length of this cell, size field included.
    pub collision_size: u32,
    /// Number of points that follow.
    pub points_count: u32,
    /// The points, tile-local, byte-narrowed.
    pub points: Vec<(u8, u8)>,
}

impl SaturnCollision {
    /// Exact serialized length of this cell.
    pub open spec fn ser_len(&self) -> int {
        COLLISION_FIXED_LEN + 2 * self.points@.len()
    }

    /// Both derived fields were frozen to their exact values.
    pub open spec fn wf(&self) -> bool {
        &&& self.collision_size == self.ser_len()
        &&& self.points_count == self.points@.len()
    }

    /// The serialized byte stream of this cell.
    pub open spec fn ser(&self) -> Seq<u8> {
        seq![type_byte(self.collision_type)] + u32_be(self.collision_size) + u32_be(
            self.points_count,
        ) + points_bytes(self.points@)
    }

    /// Appends the serialized cell.
    pub fn write_into(&self, out: &mut Vec<u8>)
        ensures
            final(out)@ == old(out)@ + self.ser(),
    {
        let b: u8 = match self.collision_type {
            CollisionType::Empty => 0,
            CollisionType::Rect => 1,
            CollisionType::Polygon => 2,
        };
        out.push(b);
        push_u32_be(out, self.collision_size);
        push_u32_be(out, self.points_count);
        let mut i: usize = 0;
        while i < self.points.len()
            invariant
                i <= self.points@.len(),
                out@ == old(out)@ + seq![type_byte(self.collision_type)] + u32_be(
                    self.collision_size,
                ) + u32_be(self.points_count) + points_bytes(self.points@.take(i as int)),
            decreases self.points@.len() - i,
        {
            let (px, py) = self.points[i];
            out.push(px);
            out.push(py);
            proof {
                assert(self.points@.take(i as int + 1).drop_last() =~= self.points@.take(
                    i as int,
                ));
                assert(out@ =~= old(out)@ + seq![type_byte(self.collision_type)] + u32_be(
                    self.collision_size,
                ) + u32_be(self.points_count) + points_bytes(self.points@.take(i as int + 1)));
            }
            i += 1;
        }
        proof {
            assert(self.points@.take(self.points@.len() as int) =~= self.points@);
            assert(out@ =~= old(out)@ + self.ser());
        }
    }
}

/// The last rectangle among a tile's attached objects, if any.
pub open spec fn last_rect(objects: Seq<ObjectShape>) -> Option<(u8, u8, u8, u8)>
    decreases objects.len(),
{
    if objects.len() == 0 {
        None
    } else {
        match objects.last() {
            ObjectShape::Rect { x, y, width, height } => Some((x, y, width, height)),
            ObjectShape::OtherShape => last_rect(objects.drop_last()),
        }
    }
}

/// The rectangle a grid's cell at `(x, y)` writes, if any.
pub open spec fn cell_rect(g: TileGrid, x: int, y: int) -> Option<(u8, u8, u8, u8)> {
    match g.cells@[y * g.width + x] {
        Option::Some(c) => last_rect(c.objects@),
        Option::None => None,
    }
}

/// The rectangle the finished table holds at `(x, y)`: the last layer
/// whose cell there yields one wins.
pub open spec fn final_rect(grids: Seq<TileGrid>, x: int, y: int) -> Option<(u8, u8, u8, u8)>
    decreases grids.len(),
{
    if grids.len() == 0 {
        None
    } else {
        match cell_rect(grids.last(), x, y) {
            Option::Some(r) => Some(r),
            Option::None => final_rect(grids.drop_last(), x, y),
        }
    }
}

/// The four corner points a rectangle serializes to.
pub open spec fn rect_points(r: (u8, u8, u8, u8)) -> Seq<(u8, u8)> {
    seq![(r.0, r.1), (r.2, r.1), (r.2, r.3), (r.0, r.3)]
}

/// A collision cell holds exactly what the table prescribes there:
/// a four-corner rectangle cell, or an untouched empty cell.
pub open spec fn collision_matches(c: SaturnCollision, rect: Option<(u8, u8, u8, u8)>) -> bool {
    match rect {
        Option::Some(r) => {
            &&& c.collision_type == CollisionType::Rect
            &&& c.points@ == rect_points(r)
            &&& c.points_count == 4
            &&& c.collision_size == 17
            &&& c.wf()
        },
        Option::None => {
            &&& c.collision_type == CollisionType::Empty
            &&& c.points@.len() == 0
            &&& c.points_count == 0
            &&& c.collision_size == 9
            &&& c.wf()
        },
    }
}

/// Equal row-major positions come from equal coordinates.
proof fn lemma_pos_unique(w: int, x1: int, y1: int, x2: int, y2: int)
    requires
        0 <= x1 < w,
        0 <= x2 < w,
        0 <= y1,
        0 <= y2,
        y1 * w + x1 == y2 * w + x2,
    ensures
        x1 == x2 && y1 == y2,
{
    lemma_fundamental_div_mod_converse(y1 * w + x1, w, y1, x1);
    lemma_fundamental_div_mod_converse(y2 * w + x2, w, y2, x2);
}

/// A fresh, untouched collision cell.
fn empty_collision() -> (r: SaturnCollision)
    ensures
        collision_matches(r, None),
{
    SaturnCollision {
        collision_type: CollisionType::Empty,
        collision_size: COLLISION_FIXED_LEN,
        points_count: 0,
        points: Vec::new(),
    }
}

/// The last rectangle among a tile's objects, scanned in source order.
fn find_last_rect(objects: &Vec<ObjectShape>) -> (r: Option<(u8, u8, u8, u8)>)
    ensures
        r == last_rect(objects@),
{
    let mut last: Option<(u8, u8, u8, u8)> = None;
    let mut i: usize = 0;
    while i < objects.len()
        invariant
            i <= objects@.len(),
            last == last_rect(objects@.take(i as int)),
        decreases objects@.len() - i,
    {
        proof {
            assert(objects@.take(i as int + 1).drop_last() =~= objects@.take(i as int));
            assert(objects@.take(i as int + 1).last() == objects@[i as int]);
        }
        match &objects[i] {
            ObjectShape::Rect { x, y, width, height } => {
                last = Some((*x, *y, *width, *height));
            },
            ObjectShape::OtherShape => {},
        }
        i += 1;
    }
    proof {
        assert(objects@.take(objects@.len() as int) =~= objects@);
    }
    last
}

impl SaturnCollision {
    /// Builds the map's collision table: `width * height` cells,
    /// row-major, each Empty unless some tile layer's cell there carries
    /// a rectangle object; the later-processed layer and object win.
    pub fn build(map_width: u32, map_height: u32, layers: &Vec<LayerInput>) -> (r: Vec<
        SaturnCollision,
    >)
        requires
            map_width * map_height <= 0x10_0000,
            forall|i: int|
                0 <= i < layers@.len() ==> (#[trigger] layers@[i] matches LayerInput::Tiles {
                    grid,
                } ==> (grid.wf() && grid.width == map_width && grid.height == map_height)),
        ensures
            r@.len() == map_width * map_height,
            forall|x: int, y: int|
                0 <= x < map_width && 0 <= y < map_height ==> collision_matches(
                    #[trigger] r@[y * map_width + x],
                    final_rect(tile_grids(layers@), x, y),
                ),
    {
        let ghost w = map_width as int;
        let ghost h = map_height as int;
        let total: usize = (map_width as usize) * (map_height as usize);
        let mut results: Vec<SaturnCollision> = Vec::new();
        while results.len() < total
            invariant
                total == map_width * map_height,
                results@.len() <= total,
                forall|k: int| 0 <= k < results@.len() ==> collision_matches(
                    #[trigger] results@[k],
                    None,
                ),
            decreases total - results@.len(),
        {
            results.push(empty_collision());
        }
        let mut li: usize = 0;
        while li < layers.len()
            invariant
                li <= layers@.len(),
                total == map_width * map_height,
                w == map_width,
                h == map_height,
                results@.len() == total,
                forall|i: int|
                    0 <= i < layers@.len() ==> (#[trigger] layers@[i] matches LayerInput::Tiles {
                        grid,
                    } ==> (grid.wf() && grid.width == map_width && grid.height == map_height)),
                forall|pos: int|
                    0 <= pos < total ==> collision_matches(
                        #[trigger] results@[pos],
                        final_rect(tile_grids(layers@.take(li as int)), pos % w, pos / w),
                    ),
            decreases layers@.len() - li,
        {
            let ghost partial = tile_grids(layers@.take(li as int));
            proof {
                assert(layers@.take(li as int + 1).drop_last() =~= layers@.take(li as int));
                assert(layers@.take(li as int + 1).last() == layers@[li as int]);
            }
            match &layers[li] {
                LayerInput::Tiles { grid } => {
                    proof {
                        assert(tile_grids(layers@.take(li as int + 1)) =~= partial.push(*grid));
                    }
                    let mut y: u32 = 0;
                    while y < map_height
                        invariant
                            y <= map_height,
                            total == map_width * map_height,
                            w == map_width,
                            h == map_height,
                            results@.len() == total,
                            grid.wf(),
                            grid.width == map_width,
                            grid.height == map_height,
                            tile_grids(layers@.take(li as int + 1)) == partial.push(*grid),
                            forall|pos: int|
                                0 <= pos < y as int * w ==> collision_matches(
                                    #[trigger] results@[pos],
                                    final_rect(partial.push(*grid), pos % w, pos / w),
                                ),
                            forall|pos: int|
                                y as int * w <= pos < total ==> collision_matches(
                                    #[trigger] results@[pos],
                                    final_rect(partial, pos % w, pos / w),
                                ),
                        decreases map_height - y,
                    {
                        proof {
                            lemma_mul_inequality(y as int + 1, h, w);
                            assert((y as int + 1) * w == y as int * w + w) by (nonlinear_arith);
                            assert(h * w == w * h) by (nonlinear_arith);
                            vstd::arithmetic::mul::lemma_mul_nonnegative(y as int, w);
                        }
                        let mut x: u32 = 0;
                        while x < map_width
                            invariant
                                x <= map_width,
                                y < map_height,
                                total == map_width * map_height,
                                w == map_width,
                                h == map_height,
                                results@.len() == total,
                                y as int * w + w <= total,
                                0 <= y as int * w,
                                grid.wf(),
                                grid.width == map_width,
                                grid.height == map_height,
                                tile_grids(layers@.take(li as int + 1)) == partial.push(*grid),
                                forall|pos: int|
                                    0 <= pos < y as int * w + x as int ==> collision_matches(
                                        #[trigger] results@[pos],
                                        final_rect(partial.push(*grid), pos % w, pos / w),
                                    ),
                                forall|pos: int|
                                    y as int * w + x as int <= pos < total ==> collision_matches(
                                        #[trigger] results@[pos],
                                        final_rect(partial, pos % w, pos / w),
                                    ),
                            decreases map_width - x,
                        {
                            let pos: usize = (y as usize) * (map_width as usize) + (x as usize);
                            proof {
                                lemma_fundamental_div_mod_converse(
                                    y as int * w + x as int,
                                    w,
                                    y as int,
                                    x as int,
                                );
                            }
                            let rect: Option<(u8, u8, u8, u8)> = match &grid.cells[pos] {
                                Option::Some(c) => find_last_rect(&c.objects),
                                Option::None => None,
                            };
                            proof {
                                assert(cell_rect(*grid, x as int, y as int) == rect);
                                assert(final_rect(partial.push(*grid), x as int, y as int)
                                    == match rect {
                                    Option::Some(r) => Some(r),
                                    Option::None => final_rect(partial, x as int, y as int),
                                }) by {
                                    assert(partial.push(*grid).last() == *grid);
                                    assert(partial.push(*grid).drop_last() =~= partial);
                                }
                            }
                            match rect {
                                Option::Some((rx, ry, rw, rh)) => {
                                    let mut points: Vec<(u8, u8)> = Vec::new();
                                    points.push((rx, ry));
                                    points.push((rw, ry));
                                    points.push((rw, rh));
                                    points.push((rx, rh));
                                    let solid = SaturnCollision {
                                        collision_type: CollisionType::Rect,
                                        collision_size: 17,
                                        points_count: 4,
                                        points,
                                    };
                                    proof {
                                        assert(solid.points@ =~= rect_points((rx, ry, rw, rh)));
                                    }
                                    results.set(pos, solid);
                                },
                                Option::None => {},
                            }
                            x += 1;
                        }
                        y += 1;
                    }
                    proof {
                        assert(h * w == w * h) by (nonlinear_arith);
                    }
                },
                _ => {
                    proof {
                        assert(tile_grids(layers@.take(li as int + 1)) =~= partial);
                    }
                },
            }
            li += 1;
        }
        proof {
            assert(layers@.take(layers@.len() as int) =~= layers@);
            assert forall|x: int, y: int|
                0 <= x < map_width && 0 <= y < map_height implies collision_matches(
                #[trigger] results@[y * w + x],
                final_rect(tile_grids(layers@), x, y),
            ) by {
                lemma_mul_inequality(y, h - 1, w);
                vstd::arithmetic::mul::lemma_mul_nonnegative(y, w);
                assert((h - 1) * w + w == h * w) by (nonlinear_arith);
                assert(h * w == w * h) by (nonlinear_arith);
                lemma_fundamental_div_mod_converse(y * w + x, w, y, x);
            }
        }
        results
    }
}

} // verus!
