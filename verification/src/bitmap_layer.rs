//! Bitmap (image) layer encoding: a full-resolution image packed to the
//! raw pixel stream the hardware scans out.
//!
//! A bitmap layer segment is laid out big-endian as: id, size, width,
//! height, bitmap byte length, bitmap bytes. The size field counts the
//! whole segment, itself included.

use vstd::prelude::*;

use crate::bytes::push_u32_be;
use crate::bytes::u32_be;
use crate::color_table::lemma_words16_len;
use crate::color_table::pack_colors16;
use crate::color_table::words16_bytes;
use crate::errors::SaturnError;
use crate::model::BitmapImage;
use crate::model::LayerInput;

verus! {

/// Serialized bytes of a bitmap layer segment before the pixel data.
pub const BITMAP_FIXED_LEN: u32 = 20;

/// One encoded bitmap layer, ready to serialize.
#[derive(Debug, PartialEq, Eq)]
pub struct SaturnBitmapLayer {
    /// Layer id from the source map.
    pub id: u32,
    /// Total serialized length of this segment, size field included.
    pub layer_size: u32,
    /// Image width in pixels (512 or 1024).
    pub width: u32,
    /// Image height in pixels (256 or 512).
    pub height: u32,
    /// Packed pixel bytes.
    pub bitmap: Vec<u8>,
}

impl SaturnBitmapLayer {
    /// Exact serialized length of this segment.
    pub open spec fn ser_len(&self) -> int {
        BITMAP_FIXED_LEN + self.bitmap@.len()
    }

    /// The size field was frozen to the segment's exact serialized length.
    pub open spec fn wf(&self) -> bool {
        self.layer_size == self.ser_len()
    }

    /// The serialized byte stream of this segment.
    pub open spec fn ser(&self) -> Seq<u8> {
        u32_be(self.id) + u32_be(self.layer_size) + u32_be(self.width) + u32_be(self.height)
            + u32_be(self.bitmap@.len() as u32) + self.bitmap@
    }

    /// Appends the serialized segment.
    pub fn write_into(&self, out: &mut Vec<u8>)
        requires
            self.wf(),
        ensures
            final(out)@ == old(out)@ + self.ser(),
    {
        push_u32_be(out, self.id);
        push_u32_be(out, self.layer_size);
        push_u32_be(out, self.width);
        push_u32_be(out, self.height);
        push_u32_be(out, self.bitmap.len() as u32);
        out.extend_from_slice(self.bitmap.as_slice());
        assert(out@ =~= old(out)@ + self.ser());
    }
}

/// The image layers of the map's layer list, in order: the id and the
/// optional image of each.
pub open spec fn image_layers(layers: Seq<LayerInput>) -> Seq<(u32, Option<BitmapImage>)>
    decreases layers.len(),
{
    if layers.len() == 0 {
        Seq::empty()
    } else {
        let pre = image_layers(layers.drop_last());
        match layers.last() {
            LayerInput::Image { id, image } => pre.push((id, image)),
            _ => pre,
        }
    }
}

/// Splitting the layer list splits its image layers.
pub proof fn lemma_image_layers_concat(layers: Seq<LayerInput>, m: int)
    requires
        0 <= m <= layers.len(),
    ensures
        image_layers(layers) =~= image_layers(layers.take(m)) + image_layers(layers.skip(m)),
    decreases layers.len(),
{
    if m == layers.len() {
        assert(layers.take(m) =~= layers);
        assert(layers.skip(m) =~= Seq::empty());
        assert(image_layers(Seq::empty()) =~= Seq::<(u32, Option<BitmapImage>)>::empty());
    } else {
        let dl = layers.drop_last();
        lemma_image_layers_concat(dl, m);
        assert(dl.take(m) =~= layers.take(m));
        assert(layers.skip(m).drop_last() =~= dl.skip(m));
        assert(layers.skip(m).last() == layers.last());
    }
}

/// Does encoding this image layer succeed: it has an image, and the
/// image's dimensions are ones the hardware scans out.
pub open spec fn spec_bitmap_ok(img: Option<BitmapImage>) -> bool {
    img matches Some(b) && (b.width == 512 || b.width == 1024) && (b.height == 256 || b.height
        == 512)
}

/// The packed pixel bytes of an image: the 16-bit form, pixel by pixel.
/// Only the 16-bit palette word size has a defined bitmap encoding; the
/// encoder demands it.
pub open spec fn spec_bitmap_bytes(b: BitmapImage) -> Seq<u8> {
    words16_bytes(b.pixels@)
}

/// An encoded bitmap layer is exactly what its image prescribes.
pub open spec fn bitmap_matches(l: SaturnBitmapLayer, id: u32, img: Option<BitmapImage>) -> bool {
    img matches Some(b) && {
        &&& l.id == id
        &&& l.width == b.width
        &&& l.height == b.height
        &&& l.bitmap@ == spec_bitmap_bytes(b)
        &&& l.wf()
    }
}

impl SaturnBitmapLayer {
/// Encodes every image layer of the map, in order, stopping at the
/// first failure. Pixels are packed as 16-bit words; a palette word
/// size other than 1 has no defined bitmap encoding and is excluded.
pub fn build(layers: &Vec<LayerInput>, words_per_palette: u8) -> (r: Result<
    Vec<SaturnBitmapLayer>,
    SaturnError,
>)
    requires
        words_per_palette == 1,
        forall|i: int|
            0 <= i < layers@.len() ==> (#[trigger] layers@[i] matches LayerInput::Image {
                id,
                image,
            } ==> (image matches Some(b) ==> b.pixels@.len() <= 0x10_0000)),
    ensures
        ((forall|k: int|
            0 <= k < image_layers(layers@).len() ==> spec_bitmap_ok(
                #[trigger] image_layers(layers@)[k].1,
            )) <==> r is Ok),
        r matches Ok(v) ==> v@.len() == image_layers(layers@).len() && forall|k: int|
            0 <= k < image_layers(layers@).len() ==> bitmap_matches(
                #[trigger] v@[k],
                image_layers(layers@)[k].0,
                image_layers(layers@)[k].1,
            ),
        r matches Err(e) ==> e == SaturnError::InvalidImageDimensions && exists|k: int|
            0 <= k < image_layers(layers@).len() && !spec_bitmap_ok(
                #[trigger] image_layers(layers@)[k].1,
            ) && (forall|j: int| 0 <= j < k ==> spec_bitmap_ok(image_layers(layers@)[j].1)),
{
    let mut results: Vec<SaturnBitmapLayer> = Vec::new();
    let mut i: usize = 0;
    while i < layers.len()
        invariant
            i <= layers@.len(),
            forall|k: int|
                0 <= k < layers@.len() ==> (#[trigger] layers@[k] matches LayerInput::Image {
                    id,
                    image,
                } ==> (image matches Some(b) ==> b.pixels@.len() <= 0x10_0000)),
            results@.len() == image_layers(layers@.take(i as int)).len(),
            forall|k: int|
                0 <= k < results@.len() ==> spec_bitmap_ok(
                    #[trigger] image_layers(layers@.take(i as int))[k].1,
                ),
            forall|k: int|
                0 <= k < results@.len() ==> bitmap_matches(
                    #[trigger] results@[k],
                    image_layers(layers@.take(i as int))[k].0,
                    image_layers(layers@.take(i as int))[k].1,
                ),
        decreases layers@.len() - i,
    {
        let ghost partial = image_layers(layers@.take(i as int));
        proof {
            assert(layers@.take(i as int + 1).drop_last() =~= layers@.take(i as int));
            assert(layers@.take(i as int + 1).last() == layers@[i as int]);
        }
        match &layers[i] {
            LayerInput::Image { id, image } => {
                let ghost g = partial.len() as int;
                proof {
                    assert(image_layers(layers@.take(i as int + 1)) =~= partial.push(
                        (*id, *image),
                    ));
                    lemma_image_layers_concat(layers@, i as int + 1);
                    assert(image_layers(layers@)[g] == (*id, *image));
                    assert(forall|k: int| 0 <= k < g ==> image_layers(layers@)[k] == partial[k]);
                }
                proof {
                    assert(image_layers(layers@).len() >= g + 1);
                    assert(image_layers(layers@)[g].1 == *image);
                    assert(forall|j: int|
                        0 <= j < g ==> spec_bitmap_ok(#[trigger] image_layers(layers@)[j].1));
                }
                let b = match image {
                    Option::Some(b) => b,
                    Option::None => {
                        proof {
                            assert(!spec_bitmap_ok(image_layers(layers@)[g].1));
                        }
                        return Err(SaturnError::InvalidImageDimensions);
                    },
                };
                if !(b.width == 512 || b.width == 1024) || !(b.height == 256 || b.height == 512) {
                    proof {
                        assert(!spec_bitmap_ok(image_layers(layers@)[g].1));
                    }
                    return Err(SaturnError::InvalidImageDimensions);
                }
                proof {
                    lemma_words16_len(b.pixels@);
                }
                let bitmap: Vec<u8> = pack_colors16(&b.pixels);
                let layer_size: u32 = BITMAP_FIXED_LEN + (bitmap.len() as u32);
                let layer = SaturnBitmapLayer {
                    id: *id,
                    layer_size,
                    width: b.width,
                    height: b.height,
                    bitmap,
                };
                results.push(layer);
            },
            _ => {
                proof {
                    assert(image_layers(layers@.take(i as int + 1)) =~= partial);
                }
            },
        }
        i += 1;
    }
    proof {
        assert(layers@.take(layers@.len() as int) =~= layers@);
    }
    Ok(results)
}
}

} // verus!
