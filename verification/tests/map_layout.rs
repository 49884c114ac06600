use tiled2saturn::collisions::{CollisionType, SaturnCollision};
use tiled2saturn::errors::SaturnError;
use tiled2saturn::layer::{tileset_index_for_layer, SaturnLayer};
use tiled2saturn::map::SaturnMap;
use tiled2saturn::model::{
    BitmapImage, LayerInput, MapInput, ObjectShape, PixelSource, PropVal, TileCell, TileGrid,
    TilesetInput,
};
use tiled2saturn::tileset::SaturnTileset;

fn cell(tile_id: u32, tileset_index: usize) -> TileCell {
    TileCell {
        tile_id,
        tileset_index,
        flip_h: false,
        flip_v: false,
        flip_d: false,
        objects: Vec::new(),
    }
}

fn grid_with(id: u32, width: u32, height: u32, filled: Vec<(usize, TileCell)>) -> TileGrid {
    let mut cells: Vec<Option<TileCell>> = Vec::new();
    for _ in 0..(width * height) {
        cells.push(None);
    }
    for (pos, c) in filled {
        cells[pos] = Some(c);
    }
    TileGrid { id, width, height, cells }
}

fn plain_tileset_input() -> TilesetInput {
    let mut pixels: Vec<u32> = vec![0x000000; 64];
    pixels[0] = 0xFF0000;
    TilesetInput {
        tile_width: 8,
        tile_height: 8,
        tile_count: 1,
        image_width: 8,
        image_height: 8,
        palette_bank: Some(PropVal::IntValue(0)),
        pnd_size: Some(PropVal::IntValue(1)),
        pixels: PixelSource::Direct { pixels },
    }
}

fn hand_tileset(tile: u32, tile_count: u32, words: u8, bpp: u16) -> SaturnTileset {
    SaturnTileset {
        tileset_size: 30,
        tile_width: tile,
        tile_height: tile,
        tile_count,
        bpp,
        words_per_palette: words,
        number_of_colors: 16,
        palette_bank: 0,
        palette: Vec::new(),
        character_pattern: Vec::new(),
    }
}

fn be32(b: &[u8], off: usize) -> u32 {
    u32::from_be_bytes([b[off], b[off + 1], b[off + 2], b[off + 3]])
}

#[test]
fn layer_needs_one_tileset() {
    // Cells from two tilesets are a mixed-tileset error.
    let g = grid_with(1, 2, 2, vec![(0, cell(0, 0)), (3, cell(1, 1))]);
    assert_eq!(
        tileset_index_for_layer(&g),
        Err(SaturnError::MixedTilesetError)
    );
    // So is a layer with no populated cell at all.
    let empty = grid_with(2, 2, 2, vec![]);
    assert_eq!(
        tileset_index_for_layer(&empty),
        Err(SaturnError::MixedTilesetError)
    );
    // A uniform layer names its tileset's position.
    let uni = grid_with(3, 2, 2, vec![(1, cell(4, 7)), (2, cell(5, 7))]);
    assert_eq!(tileset_index_for_layer(&uni), Ok(7));
}

#[test]
fn transparency_tracks_earlier_layers() {
    let tilesets = vec![hand_tileset(8, 1, 1, 4)];
    let layers = vec![
        LayerInput::Tiles { grid: grid_with(1, 2, 2, vec![(0, cell(0, 0))]) },
        LayerInput::OtherKind,
        LayerInput::Tiles { grid: grid_with(2, 2, 2, vec![(3, cell(0, 0))]) },
    ];
    let built = SaturnLayer::build(&layers, &tilesets).unwrap();
    assert_eq!(built.len(), 2);
    assert!(!built[0].tile_transparency_enabled);
    assert!(built[1].tile_transparency_enabled);
}

#[test]
fn flip_flags_enable_the_layer_flag() {
    let tilesets = vec![hand_tileset(8, 1, 1, 4)];
    let mut c = cell(0, 0);
    c.flip_d = true;
    let layers = vec![LayerInput::Tiles { grid: grid_with(1, 2, 2, vec![(0, c)]) }];
    let built = SaturnLayer::build(&layers, &tilesets).unwrap();
    assert!(built[0].tile_flip_enabled);
}

#[test]
fn layer_rejects_unpageable_tile_size() {
    let tilesets = vec![hand_tileset(32, 1, 1, 4)];
    let layers = vec![LayerInput::Tiles { grid: grid_with(1, 2, 2, vec![(0, cell(0, 0))]) }];
    assert_eq!(
        SaturnLayer::build(&layers, &tilesets),
        Err(SaturnError::UnsupportedTileSizeForLayer)
    );
}

#[test]
fn pattern_name_words_sixteen_bit() {
    // One 64x64-tile page of an 8x8 tileset, 4bpp, 16-bit words, with a
    // second tileset in front so the id bias is 5.
    let tilesets = vec![hand_tileset(16, 5, 1, 4), hand_tileset(8, 9, 1, 4)];
    let mut flipped = cell(2, 1);
    flipped.flip_h = true;
    flipped.flip_v = true;
    let layers = vec![
        LayerInput::Tiles {
            grid: grid_with(1, 64, 64, vec![(0, cell(1, 1)), (1, flipped)]),
        },
    ];
    let built = SaturnLayer::build(&layers, &tilesets).unwrap();
    let data = &built[0].pattern_name_data;
    assert_eq!(data.len(), 64 * 64 * 2);
    // Populated cell: id 1 + bias 5.
    assert_eq!(&data[0..2], &[0x00, 0x06]);
    // Flipped cell: id 2 | 0x400 | 0x800, + bias 5.
    assert_eq!(&data[2..4], &[0x0C, 0x07]);
    // Empty cell: the no-tile sentinel, low ten bits, no bias.
    assert_eq!(&data[4..6], &[0x03, 0xFF]);
    assert_eq!(built[0].layer_size, 24 + 64 * 64 * 2);
    assert_eq!(built[0].tileset_index, 1);
}

#[test]
fn pattern_name_words_thirty_two_bit() {
    // 16x16 tiles page 32x32; both flip flags share bit 30.
    let tilesets = vec![hand_tileset(16, 1, 2, 11)];
    let mut flipped = cell(3, 0);
    flipped.flip_v = true;
    let layers = vec![
        LayerInput::Tiles {
            grid: grid_with(1, 32, 32, vec![(0, cell(3, 0)), (1, flipped)]),
        },
    ];
    let built = SaturnLayer::build(&layers, &tilesets).unwrap();
    let data = &built[0].pattern_name_data;
    assert_eq!(data.len(), 32 * 32 * 4);
    assert_eq!(&data[0..4], &[0x00, 0x00, 0x00, 0x06]);
    assert_eq!(&data[4..8], &[0x40, 0x00, 0x00, 0x06]);
    // Empty cell: low fifteen sentinel bits, shifted once.
    assert_eq!(&data[8..12], &[0x00, 0x00, 0xFF, 0xFE]);
}

#[test]
fn collision_rectangle_corners() {
    let mut c = cell(0, 0);
    c.objects.push(ObjectShape::Rect { x: 2, y: 3, width: 5, height: 4 });
    let layers = vec![LayerInput::Tiles { grid: grid_with(1, 2, 2, vec![(2, c)]) }];
    let table = SaturnCollision::build(2, 2, &layers);
    assert_eq!(table.len(), 4);
    assert_eq!(table[2].collision_type, CollisionType::Rect);
    assert_eq!(table[2].points, vec![(2, 3), (5, 3), (5, 4), (2, 4)]);
    assert_eq!(table[2].points_count, 4);
    assert_eq!(table[2].collision_size, 17);
    // An untouched cell stays empty with no points.
    assert_eq!(table[0].collision_type, CollisionType::Empty);
    assert_eq!(table[0].points_count, 0);
    assert_eq!(table[0].collision_size, 9);
}

#[test]
fn collision_later_writer_wins() {
    let mut early = cell(0, 0);
    early.objects.push(ObjectShape::Rect { x: 1, y: 1, width: 2, height: 2 });
    let mut late = cell(0, 0);
    late.objects.push(ObjectShape::OtherShape);
    late.objects.push(ObjectShape::Rect { x: 9, y: 9, width: 9, height: 9 });
    let layers = vec![
        LayerInput::Tiles { grid: grid_with(1, 1, 1, vec![(0, early)]) },
        LayerInput::Tiles { grid: grid_with(2, 1, 1, vec![(0, late)]) },
    ];
    let table = SaturnCollision::build(1, 1, &layers);
    assert_eq!(table[0].points, vec![(9, 9), (9, 9), (9, 9), (9, 9)]);
}

#[test]
fn collision_skips_other_shapes() {
    let mut c = cell(0, 0);
    c.objects.push(ObjectShape::OtherShape);
    let layers = vec![LayerInput::Tiles { grid: grid_with(1, 1, 1, vec![(0, c)]) }];
    let table = SaturnCollision::build(1, 1, &layers);
    assert_eq!(table[0].collision_type, CollisionType::Empty);
}

#[test]
fn map_serializes_with_exact_sizes_and_offsets() {
    let input = MapInput {
        width: 2,
        height: 2,
        tilesets: vec![plain_tileset_input()],
        layers: vec![
            LayerInput::Tiles { grid: grid_with(1, 2, 2, vec![(0, cell(0, 0))]) },
            LayerInput::Image {
                id: 2,
                image: Some(BitmapImage { width: 512, height: 256, pixels: vec![0xFF0000, 0x0000FF] }),
            },
        ],
    };
    let map = SaturnMap::build(&input, 1).unwrap();
    let bytes = map.to_bytes();

    // Header: magic, version, dimensions.
    assert_eq!(&bytes[0..4], &[0x89, 0x4D, 0x41, 0x50]);
    assert_eq!(be32(&bytes, 4), 4);
    assert_eq!(be32(&bytes, 8), 2);
    assert_eq!(be32(&bytes, 12), 2);
    assert_eq!(bytes[16], 1); // tileset count
    let tileset_offset = be32(&bytes, 17) as usize;
    assert_eq!(bytes[21], 1); // layer count
    let layer_offset = be32(&bytes, 22) as usize;
    assert_eq!(bytes[26], 1); // bitmap layer count
    let bitmap_layer_offset = be32(&bytes, 27) as usize;
    let collision_offset = be32(&bytes, 31) as usize;
    assert_eq!(tileset_offset, 35);

    // Every segment's size field equals its serialized byte length.
    let tileset_size = be32(&bytes, tileset_offset) as usize;
    assert_eq!(layer_offset, tileset_offset + tileset_size);
    let layer_size = be32(&bytes, layer_offset + 4) as usize;
    assert_eq!(bitmap_layer_offset, layer_offset + layer_size);
    let bitmap_size = be32(&bytes, bitmap_layer_offset + 4) as usize;
    assert_eq!(collision_offset, bitmap_layer_offset + bitmap_size);

    // The collision table closes the file: four cells, all empty.
    assert_eq!(bytes.len(), collision_offset + 4 * 9);
    assert_eq!(bytes[collision_offset], 0);
    assert_eq!(be32(&bytes, collision_offset + 1), 9);

    // The one tile layer is 2x2 and references tileset 0; pattern data
    // is empty because the layer is smaller than one 64-tile page.
    assert_eq!(be32(&bytes, layer_offset), 1); // layer id
    assert_eq!(layer_size, 24);

    // The bitmap layer packed two pixels as 16-bit words.
    assert_eq!(bitmap_size, 20 + 4);
    assert_eq!(
        &bytes[bitmap_layer_offset + 20..bitmap_layer_offset + 24],
        &[0x80, 0x1F, 0xFC, 0x00]
    );
}

#[test]
fn map_rejects_bad_image_dimensions() {
    let input = MapInput {
        width: 1,
        height: 1,
        tilesets: vec![],
        layers: vec![
            LayerInput::Image {
                id: 1,
                image: Some(BitmapImage { width: 100, height: 100, pixels: vec![] }),
            },
        ],
    };
    assert_eq!(
        SaturnMap::build(&input, 1),
        Err(SaturnError::InvalidImageDimensions)
    );
}

#[test]
fn map_rejects_missing_image() {
    let input = MapInput {
        width: 1,
        height: 1,
        tilesets: vec![],
        layers: vec![LayerInput::Image { id: 1, image: None }],
    };
    assert_eq!(
        SaturnMap::build(&input, 1),
        Err(SaturnError::InvalidImageDimensions)
    );
}

#[test]
fn map_rejects_overflowing_counts() {
    let mut layers: Vec<LayerInput> = Vec::new();
    for i in 0..256 {
        layers.push(LayerInput::Image {
            id: i,
            image: Some(BitmapImage { width: 512, height: 256, pixels: vec![] }),
        });
    }
    let input = MapInput { width: 1, height: 1, tilesets: vec![], layers };
    assert_eq!(SaturnMap::build(&input, 1), Err(SaturnError::CountOverflow));
}

#[test]
fn map_rejects_mixed_tileset_layer() {
    let input = MapInput {
        width: 2,
        height: 2,
        tilesets: vec![plain_tileset_input(), plain_tileset_input()],
        layers: vec![
            LayerInput::Tiles {
                grid: grid_with(1, 2, 2, vec![(0, cell(0, 0)), (1, cell(0, 1))]),
            },
        ],
    };
    assert_eq!(
        SaturnMap::build(&input, 1),
        Err(SaturnError::MixedTilesetError)
    );
}

#[test]
fn layer_segment_bytes_round_trip() {
    let layer = SaturnLayer {
        id: 3,
        layer_size: 24,
        width: 2,
        height: 2,
        tileset_index: 1,
        tile_flip_enabled: true,
        tile_transparency_enabled: false,
        pattern_name_data: Vec::new(),
    };
    let mut out: Vec<u8> = Vec::new();
    layer.write_into(&mut out);
    assert_eq!(out.len(), 24);
    assert_eq!(be32(&out, 0), 3);
    assert_eq!(be32(&out, 4), 24);
    assert_eq!(out[18], 1); // flip flag byte
    assert_eq!(out[19], 0); // transparency flag byte
}

#[test]
fn pattern_pages_traverse_row_major() {
    // Two 64-tile pages side by side: the cell at tile (64, 0) opens the
    // second page, 64*64 words into the stream.
    let tilesets = vec![hand_tileset(8, 1, 1, 4)];
    let layers = vec![
        LayerInput::Tiles {
            grid: grid_with(1, 128, 64, vec![(0, cell(1, 0)), (64, cell(7, 0))]),
        },
    ];
    let built = SaturnLayer::build(&layers, &tilesets).unwrap();
    let data = &built[0].pattern_name_data;
    assert_eq!(data.len(), 2 * 64 * 64 * 2);
    assert_eq!(&data[0..2], &[0x00, 0x01]);
    let second_page = 64 * 64 * 2;
    assert_eq!(&data[second_page..second_page + 2], &[0x00, 0x07]);
}

#[test]
fn pattern_name_id_shifts_then_masks() {
    // At 8bpp the id is shifted left once and then masked to ten bits:
    // id 0x200 lands entirely outside the field, clear of the flip bits.
    let tilesets = vec![hand_tileset(8, 1, 1, 8)];
    let layers = vec![
        LayerInput::Tiles {
            grid: grid_with(1, 64, 64, vec![(0, cell(0x200, 0)), (1, cell(3, 0))]),
        },
    ];
    let built = SaturnLayer::build(&layers, &tilesets).unwrap();
    let data = &built[0].pattern_name_data;
    assert_eq!(&data[0..2], &[0x00, 0x00]);
    assert_eq!(&data[2..4], &[0x00, 0x06]);
    // Empty cell at 8bpp: the shifted sentinel keeps its low ten bits.
    assert_eq!(&data[4..6], &[0x03, 0xFE]);
}
