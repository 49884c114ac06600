use tiled2saturn::color_table::{
    get_bpp, get_number_of_colors, pack_colors16, pack_colors32, SaturnColorTable,
};
use tiled2saturn::errors::SaturnError;
use tiled2saturn::model::{PixelSource, PropVal, TilesetInput};
use tiled2saturn::props::{get_palette_bank, get_words_per_palette, parse_u8_text};
use tiled2saturn::tileset::{encode_tileset, pack_indices, read_8x8_tile};

fn direct_tileset(
    pixels: Vec<u32>,
    image_width: u32,
    image_height: u32,
    tile: u32,
) -> TilesetInput {
    TilesetInput {
        tile_width: tile,
        tile_height: tile,
        tile_count: (image_width / tile) * (image_height / tile),
        image_width,
        image_height,
        palette_bank: Some(PropVal::IntValue(1)),
        pnd_size: Some(PropVal::IntValue(1)),
        pixels: PixelSource::Direct { pixels },
    }
}

#[test]
fn color_buckets_by_table_size() {
    assert_eq!(get_number_of_colors(1), Ok(16));
    assert_eq!(get_number_of_colors(16), Ok(16));
    assert_eq!(get_number_of_colors(17), Ok(256));
    assert_eq!(get_number_of_colors(256), Ok(256));
    assert_eq!(get_number_of_colors(257), Ok(1024));
    assert_eq!(get_number_of_colors(1024), Ok(1024));
    assert_eq!(get_number_of_colors(1025), Ok(2048));
    assert_eq!(get_number_of_colors(2048), Ok(2048));
    assert_eq!(get_number_of_colors(0), Err(SaturnError::ColorTableOverflow));
    assert_eq!(get_number_of_colors(2049), Err(SaturnError::ColorTableOverflow));
}

#[test]
fn bpp_follows_palette_size() {
    assert_eq!(get_bpp(16), Ok(4));
    assert_eq!(get_bpp(256), Ok(8));
    assert_eq!(get_bpp(1024), Ok(11));
    assert_eq!(get_bpp(2048), Ok(11));
    assert_eq!(get_bpp(5), Err(SaturnError::UnsupportedBpp));
}

#[test]
fn pack_4bpp_two_indices_per_byte() {
    let data: Vec<u16> = vec![3, 10, 0, 15];
    assert_eq!(pack_indices(4, &data), Ok(vec![0x3A, 0x0F]));
}

#[test]
fn pack_8bpp_one_byte_per_index() {
    let data: Vec<u16> = vec![3, 10, 0, 15];
    assert_eq!(pack_indices(8, &data), Ok(vec![0x03, 0x0A, 0x00, 0x0F]));
}

#[test]
fn pack_11bpp_two_bytes_per_index() {
    let data: Vec<u16> = vec![0x0123, 0x07FF];
    assert_eq!(pack_indices(11, &data), Ok(vec![0x01, 0x23, 0x07, 0xFF]));
}

#[test]
fn pack_rejects_other_depths() {
    let data: Vec<u16> = vec![1, 2];
    assert_eq!(pack_indices(5, &data), Err(SaturnError::UnsupportedBpp));
}

#[test]
fn color_table_keeps_first_occurrence_order() {
    let pixels: Vec<u32> = vec![0xFF0000, 0x0000FF, 0xFF0000, 0x00FF00];
    let table = SaturnColorTable::from_pixels(&pixels);
    assert_eq!(table.len(), 3);
    assert_eq!(table.get(0), Some(0xFF0000));
    assert_eq!(table.get(1), Some(0x0000FF));
    assert_eq!(table.get(2), Some(0x00FF00));
    assert_eq!(table.get(3), None);
    assert!(table.contains(0x00FF00));
    assert!(!table.contains(0x123456));
    assert_eq!(table.index_of(0x0000FF), 1);
}

#[test]
fn color_table_new_keeps_source_palette_order() {
    let table = SaturnColorTable::new(vec![0x101010, 0x202020]);
    assert_eq!(table.len(), 2);
    assert_eq!(table.get(1), Some(0x202020));
}

#[test]
fn sixteen_bit_color_packing_keeps_five_bits_per_channel() {
    assert_eq!(pack_colors16(&vec![0x00FF0000]), vec![0x80, 0x1F]);
    assert_eq!(pack_colors16(&vec![0x0000FF00]), vec![0x83, 0xE0]);
    assert_eq!(pack_colors16(&vec![0x000000FF]), vec![0xFC, 0x00]);
    assert_eq!(pack_colors16(&vec![0x00000000]), vec![0x80, 0x00]);
}

#[test]
fn thirty_two_bit_color_packing_swaps_channels() {
    assert_eq!(pack_colors32(&vec![0x00112233]), vec![0x00, 0x33, 0x22, 0x11]);
}

#[test]
fn parse_decimal_property_values() {
    assert_eq!(parse_u8_text("0"), Some(0));
    assert_eq!(parse_u8_text("007"), Some(7));
    assert_eq!(parse_u8_text("+42"), Some(42));
    assert_eq!(parse_u8_text("255"), Some(255));
    assert_eq!(parse_u8_text("256"), None);
    assert_eq!(parse_u8_text("99999999999999999999"), None);
    assert_eq!(parse_u8_text(""), None);
    assert_eq!(parse_u8_text("+"), None);
    assert_eq!(parse_u8_text("1x"), None);
    assert_eq!(parse_u8_text("-1"), None);
    assert_eq!(parse_u8_text("４２"), None);
}

#[test]
fn palette_bank_property_forms() {
    assert_eq!(get_palette_bank(&None), Err(SaturnError::MissingProperty));
    assert_eq!(get_palette_bank(&Some(PropVal::IntValue(5))), Ok(5));
    assert_eq!(get_palette_bank(&Some(PropVal::IntValue(300))), Ok(44));
    assert_eq!(get_palette_bank(&Some(PropVal::StringValue("7".to_string()))), Ok(7));
    assert_eq!(
        get_palette_bank(&Some(PropVal::StringValue("abc".to_string()))),
        Err(SaturnError::InvalidPropertyValue)
    );
    assert_eq!(
        get_palette_bank(&Some(PropVal::Other)),
        Err(SaturnError::InvalidPropertyValue)
    );
}

#[test]
fn words_property_rejects_other_kinds() {
    assert_eq!(get_words_per_palette(&None), Err(SaturnError::MissingProperty));
    assert_eq!(get_words_per_palette(&Some(PropVal::IntValue(2))), Ok(2));
    assert_eq!(
        get_words_per_palette(&Some(PropVal::StringValue("+2".to_string()))),
        Ok(2)
    );
    assert_eq!(
        get_words_per_palette(&Some(PropVal::Other)),
        Err(SaturnError::InvalidPropertyValue)
    );
}

#[test]
fn read_tile_block_row_major() {
    let img: Vec<u32> = (0..64).collect();
    let tile = read_8x8_tile(&img, 8, 8, 0, 0).unwrap();
    let expect: Vec<u16> = (0..64).collect();
    assert_eq!(tile, expect);
}

#[test]
fn read_tile_block_overhang_is_malformed() {
    let img: Vec<u32> = vec![0; 96];
    assert_eq!(
        read_8x8_tile(&img, 12, 8, 8, 0),
        Err(SaturnError::MalformedImageDimensions)
    );
}

#[test]
fn encode_tileset_two_color_image() {
    let mut pixels: Vec<u32> = vec![0x000000; 64];
    pixels[0] = 0xFF0000;
    let input = direct_tileset(pixels, 8, 8, 8);
    let t = encode_tileset(&input).unwrap();
    assert_eq!(t.tile_width, 8);
    assert_eq!(t.tile_height, 8);
    assert_eq!(t.tile_count, 1);
    assert_eq!(t.bpp, 4);
    assert_eq!(t.number_of_colors, 16);
    assert_eq!(t.words_per_palette, 1);
    assert_eq!(t.palette_bank, 1);
    // 16-bit words for the whole 16-color bucket: red, black, then
    // black padding up to number_of_colors entries.
    assert_eq!(t.palette.len(), 2 * 16);
    assert_eq!(&t.palette[0..4], &[0x80, 0x1F, 0x80, 0x00]);
    assert_eq!(&t.palette[4..6], &[0x80, 0x00]);
    assert_eq!(&t.palette[30..32], &[0x80, 0x00]);
    // 64 indices at 4bpp: index 0 (red) first, then index 1 everywhere.
    assert_eq!(t.character_pattern.len(), 32);
    assert_eq!(t.character_pattern[0], 0x01);
    assert_eq!(t.character_pattern[1], 0x11);
    assert_eq!(t.tileset_size, 30 + 32 + 32);
}

#[test]
fn encode_tileset_indexed_source() {
    let input = TilesetInput {
        tile_width: 8,
        tile_height: 8,
        tile_count: 1,
        image_width: 8,
        image_height: 8,
        palette_bank: Some(PropVal::IntValue(0)),
        pnd_size: Some(PropVal::IntValue(2)),
        pixels: PixelSource::Indexed {
            palette: vec![0x00112233],
            indices: vec![0; 64],
        },
    };
    let t = encode_tileset(&input).unwrap();
    assert_eq!(t.words_per_palette, 2);
    // 32-bit words for the whole 16-color bucket: the one color, then
    // black padding.
    assert_eq!(t.palette.len(), 4 * 16);
    assert_eq!(&t.palette[0..4], &[0x00, 0x33, 0x22, 0x11]);
    assert_eq!(&t.palette[4..8], &[0x00, 0x00, 0x00, 0x00]);
    // 4bpp, all indices zero.
    assert_eq!(t.character_pattern, vec![0u8; 32]);
}

#[test]
fn encode_tileset_rejects_odd_tile_size() {
    let input = direct_tileset(vec![0x000000; 144], 12, 12, 12);
    assert_eq!(encode_tileset(&input), Err(SaturnError::UnsupportedTileSize));
}

#[test]
fn encode_tileset_rejects_non_multiple_image() {
    let mut input = direct_tileset(vec![0x000000; 96], 12, 8, 8);
    input.tile_count = 1;
    assert_eq!(
        encode_tileset(&input),
        Err(SaturnError::MalformedImageDimensions)
    );
}

#[test]
fn encode_tileset_rejects_missing_property() {
    let mut input = direct_tileset(vec![0x000000; 64], 8, 8, 8);
    input.palette_bank = None;
    assert_eq!(encode_tileset(&input), Err(SaturnError::MissingProperty));
}

#[test]
fn encode_tileset_rejects_color_overflow() {
    // 2049 distinct colors overflow the largest palette.
    let pixels: Vec<u32> = (0..2049u32).collect();
    let mut input = direct_tileset(pixels, 8, 8, 8);
    input.image_width = 8;
    input.image_height = 8;
    assert_eq!(encode_tileset(&input), Err(SaturnError::ColorTableOverflow));
}

#[test]
fn encode_tileset_property_precedence() {
    // An unreadable property is reported before the malformed image.
    let mut input = direct_tileset(vec![0x000000; 96], 12, 8, 8);
    input.pnd_size = Some(PropVal::StringValue("many".to_string()));
    assert_eq!(encode_tileset(&input), Err(SaturnError::InvalidPropertyValue));
}

#[test]
fn sixteen_tile_packs_four_sub_blocks_in_order() {
    // A single 16x16 tile from a 256-color indexed image whose index at
    // (x, y) is y*16+x: the pattern must hold the top-left, top-right,
    // bottom-left and bottom-right 8x8 sub-blocks, in that order.
    let palette: Vec<u32> = (0..256u32).collect();
    let indices: Vec<u32> = (0..256u32).collect();
    let input = TilesetInput {
        tile_width: 16,
        tile_height: 16,
        tile_count: 1,
        image_width: 16,
        image_height: 16,
        palette_bank: Some(PropVal::IntValue(0)),
        pnd_size: Some(PropVal::IntValue(1)),
        pixels: PixelSource::Indexed { palette, indices },
    };
    let t = encode_tileset(&input).unwrap();
    assert_eq!(t.bpp, 8);
    assert_eq!(t.character_pattern.len(), 256);
    assert_eq!(t.character_pattern[0], 0); // top-left block, row 0 col 0
    assert_eq!(t.character_pattern[8], 16); // top-left block, row 1 col 0
    assert_eq!(t.character_pattern[64], 8); // top-right block starts
    assert_eq!(t.character_pattern[128], 128); // bottom-left block starts
    assert_eq!(t.character_pattern[192], 136); // bottom-right block starts
}
