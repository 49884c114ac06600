//! Deduplicated, indexable palettes and numerically exact color packing.
//!
//! A 24-bit color is a `u32` of the form `0x00RRGGBB`. The 16-bit packed
//! form keeps 5 bits per channel and sets the top bit; the 32-bit form
//! stores the channels as `R | G << 8 | B << 16`.

use vstd::prelude::*;

use crate::bytes::u16_be;
use crate::bytes::u32_be;
use crate::errors::SaturnError;

verus! {

/// Red channel of a packed 24-bit color.
pub open spec fn red_of(c: u32) -> u8 {
    ((c >> 16) & 0xff) as u8
}

/// Green channel of a packed 24-bit color.
pub open spec fn green_of(c: u32) -> u8 {
    ((c >> 8) & 0xff) as u8
}

/// Blue channel of a packed 24-bit color.
pub open spec fn blue_of(c: u32) -> u8 {
    (c & 0xff) as u8
}

/// The 16-bit hardware form of a color: 5 bits per channel,
/// `red | green << 5 | blue << 10`, with the top bit always set.
pub open spec fn pack_color16(c: u32) -> u16 {
    (((red_of(c) >> 3) as u16) | (((green_of(c) >> 3) as u16) << 5) | (((blue_of(c) >> 3) as u16)
        << 10)) | 0x8000
}

/// The 32-bit hardware form of a color: `R | G << 8 | B << 16`.
pub open spec fn pack_color32(c: u32) -> u32 {
    (red_of(c) as u32) | ((green_of(c) as u32) << 8) | ((blue_of(c) as u32) << 16)
}

/// The colors of `s` in first-occurrence order, duplicates dropped.
pub open spec fn dedup_first(s: Seq<u32>) -> Seq<u32>
    decreases s.len(),
{
    if s.len() == 0 {
        Seq::empty()
    } else {
        let prefix = dedup_first(s.drop_last());
        if prefix.contains(s.last()) {
            prefix
        } else {
            prefix.push(s.last())
        }
    }
}

/// The position of the first occurrence of `c` in `s`.
pub open spec fn first_index_of(s: Seq<u32>, c: u32) -> int
    decreases s.len(),
{
    if s.len() == 0 {
        0
    } else if s[0] == c {
        0
    } else {
        1 + first_index_of(s.subrange(1, s.len() as int), c)
    }
}

/// A deduplicated sequence holds exactly the colors of its source.
pub proof fn lemma_dedup_contains(s: Seq<u32>, c: u32)
    ensures
        dedup_first(s).contains(c) <==> s.contains(c),
    decreases s.len(),
{
    if s.len() > 0 {
        let dl = s.drop_last();
        let p = dedup_first(dl);
        lemma_dedup_contains(dl, c);
        if s.contains(c) {
            let i = choose|i: int| 0 <= i < s.len() && s[i] == c;
            if i < s.len() - 1 {
                assert(dl[i] == c);
                assert(dl.contains(c));
                let j = choose|j: int| 0 <= j < p.len() && p[j] == c;
                assert(dedup_first(s)[j] == c);
            } else {
                if p.contains(s.last()) {
                    let j = choose|j: int| 0 <= j < p.len() && p[j] == c;
                    assert(dedup_first(s)[j] == c);
                } else {
                    assert(dedup_first(s)[p.len() as int] == c);
                }
            }
            assert(dedup_first(s).contains(c));
        }
        if dedup_first(s).contains(c) {
            let j = choose|j: int| 0 <= j < dedup_first(s).len() && dedup_first(s)[j] == c;
            if j < p.len() {
                assert(p[j] == c);
                assert(p.contains(c));
                let k = choose|k: int| 0 <= k < dl.len() && dl[k] == c;
                assert(s[k] == c);
            } else {
                assert(c == s.last());
                assert(s[s.len() - 1] == c);
            }
            assert(s.contains(c));
        }
    }
}

/// Deduplication never lengthens a sequence.
pub proof fn lemma_dedup_len(s: Seq<u32>)
    ensures
        dedup_first(s).len() <= s.len(),
    decreases s.len(),
{
    if s.len() > 0 {
        lemma_dedup_len(s.drop_last());
    }
}

/// The first occurrence of a contained color is a valid index of it,
/// and nothing before it matches.
pub proof fn lemma_first_index_of(s: Seq<u32>, c: u32)
    requires
        s.contains(c),
    ensures
        0 <= first_index_of(s, c) < s.len(),
        s[first_index_of(s, c)] == c,
        forall|k: int| 0 <= k < first_index_of(s, c) ==> s[k] != c,
    decreases s.len(),
{
    if s[0] != c {
        let t = s.subrange(1, s.len() as int);
        let i = choose|i: int| 0 <= i < s.len() && s[i] == c;
        assert(t[i - 1] == c);
        lemma_first_index_of(t, c);
        assert(forall|k: int|
            1 <= k < first_index_of(s, c) ==> s[k] == t[k - 1] && t[k - 1] != c);
    }
}

/// A scan that stops at the first hit returns the first occurrence.
pub proof fn lemma_first_index_found(s: Seq<u32>, c: u32, j: int)
    requires
        0 <= j < s.len(),
        s[j] == c,
        forall|k: int| 0 <= k < j ==> s[k] != c,
    ensures
        first_index_of(s, c) == j,
    decreases j,
{
    if j > 0 {
        let t = s.subrange(1, s.len() as int);
        assert(t[j - 1] == c);
        assert(forall|k: int| 0 <= k < j - 1 ==> t[k] == s[k + 1] && s[k + 1] != c);
        lemma_first_index_found(t, c, j - 1);
    }
}

/// Does the vector hold the value?
fn vec_contains(v: &Vec<u32>, value: u32) -> (r: bool)
    ensures
        r == v@.contains(value),
{
    let mut i: usize = 0;
    while i < v.len()
        invariant
            i <= v@.len(),
            forall|j: int| 0 <= j < i ==> v@[j] != value,
        decreases v@.len() - i,
    {
        if v[i] == value {
            assert(v@[i as int] == value);
            return true;
        }
        i += 1;
    }
    false
}

/// Position of the first occurrence of `value` in `v`.
fn vec_index_of(v: &Vec<u32>, value: u32) -> (r: usize)
    requires
        v@.contains(value),
    ensures
        r == first_index_of(v@, value),
        r < v@.len(),
        v@[r as int] == value,
{
    let mut i: usize = 0;
    while i < v.len()
        invariant
            i <= v@.len(),
            v@.contains(value),
            forall|j: int| 0 <= j < i ==> v@[j] != value,
        decreases v@.len() - i,
    {
        if v[i] == value {
            proof {
                lemma_first_index_found(v@, value, i as int);
            }
            return i;
        }
        i += 1;
    }
    proof {
        lemma_first_index_of(v@, value);
        assert(v@[first_index_of(v@, value)] == value);
        assert(false);
    }
    0
}

/// An ordered, deduplicated table of 24-bit colors; the index of a color
/// is its palette index.
pub struct SaturnColorTable {
    data: Vec<u32>,
}

impl View for SaturnColorTable {
    type V = Seq<u32>;

    closed spec fn view(&self) -> Seq<u32> {
        self.data@
    }
}

impl SaturnColorTable {
    /// Wraps an already ordered palette (source palette order).
    pub fn new(data: Vec<u32>) -> (r: Self)
        ensures
            r@ == data@,
    {
        SaturnColorTable { data }
    }

    /// Builds a table from a pixel stream: first-occurrence order,
    /// duplicates dropped.
    pub fn from_pixels(pixels: &Vec<u32>) -> (r: Self)
        ensures
            r@ == dedup_first(pixels@),
    {
        let mut data: Vec<u32> = Vec::new();
        let mut i: usize = 0;
        while i < pixels.len()
            invariant
                i <= pixels@.len(),
                data@ == dedup_first(pixels@.take(i as int)),
            decreases pixels@.len() - i,
        {
            let c = pixels[i];
            proof {
                assert(pixels@.take(i as int + 1).drop_last() =~= pixels@.take(i as int));
                assert(pixels@.take(i as int + 1).last() == c);
            }
            if !vec_contains(&data, c) {
                data.push(c);
            }
            i += 1;
        }
        proof {
            assert(pixels@.take(pixels@.len() as int) =~= pixels@);
        }
        SaturnColorTable { data }
    }

    /// Returns the number of entries.
    pub fn len(&self) -> (r: usize)
        ensures
            r == self@.len(),
    {
        self.data.len()
    }

    /// Does the table hold the color?
    pub fn contains(&self, value: u32) -> (r: bool)
        ensures
            r == self@.contains(value),
    {
        vec_contains(&self.data, value)
    }

    /// Returns a color table entry, or `None` if `index` is out of bounds.
    pub fn get(&self, index: u32) -> (r: Option<u32>)
        ensures
            r == if index < self@.len() {
                Some(self@[index as int])
            } else {
                None::<u32>
            },
    {
        if (index as usize) < self.data.len() {
            Some(self.data[index as usize])
        } else {
            None
        }
    }

    /// Palette index of a contained color.
    pub fn index_of(&self, value: u32) -> (r: usize)
        requires
            self@.contains(value),
        ensures
            r == first_index_of(self@, value),
            r < self@.len(),
    {
        vec_index_of(&self.data, value)
    }

    /// The table's colors, padded with black entries to `n` colors, so
    /// a palette always fills its whole hardware bucket.
    pub fn padded_colors(&self, n: usize) -> (r: Vec<u32>)
        requires
            self@.len() <= n,
        ensures
            r@ == self@ + Seq::new((n - self@.len()) as nat, |i: int| 0u32),
    {
        let mut out = self.data.clone();
        while out.len() < n
            invariant
                self@.len() <= out@.len() <= n,
                out@ == self@ + Seq::new((out@.len() - self@.len()) as nat, |i: int| 0u32),
            decreases n - out@.len(),
        {
            out.push(0);
            proof {
                assert(out@ =~= self@ + Seq::new(
                    (out@.len() - self@.len()) as nat,
                    |i: int| 0u32,
                ));
            }
        }
        out
    }
}

/// The palette index stream of a direct-color pixel stream: each pixel
/// replaced by its first-occurrence index in the deduplicated table.
pub open spec fn direct_indices(pixels: Seq<u32>) -> Seq<u32> {
    Seq::new(pixels.len(), |i: int| first_index_of(dedup_first(pixels), pixels[i]) as u32)
}

/// Maps every pixel to its palette index in `table`.
pub fn indexed_pixels(table: &SaturnColorTable, pixels: &Vec<u32>) -> (r: Vec<u32>)
    requires
        table@ == dedup_first(pixels@),
        pixels@.len() <= 0x1000_0000,
    ensures
        r@ == direct_indices(pixels@),
{
    let mut out: Vec<u32> = Vec::new();
    let mut i: usize = 0;
    while i < pixels.len()
        invariant
            i <= pixels@.len(),
            pixels@.len() <= 0x1000_0000,
            table@ == dedup_first(pixels@),
            out@.len() == i,
            forall|j: int| 0 <= j < i ==> out@[j] == direct_indices(pixels@)[j],
        decreases pixels@.len() - i,
    {
        let c = pixels[i];
        proof {
            assert(pixels@.contains(c));
            lemma_dedup_contains(pixels@, c);
            lemma_dedup_len(pixels@);
            lemma_first_index_of(table@, c);
        }
        let idx = table.index_of(c);
        out.push(idx as u32);
        i += 1;
    }
    proof {
        assert(out@ =~= direct_indices(pixels@));
    }
    out
}

/// Buckets a color-table length to the hardware palette size: 16, 256,
/// 1024 or 2048 entries. An empty or oversized table is an overflow.
pub fn get_number_of_colors(table_len: usize) -> (r: Result<u16, SaturnError>)
    ensures
        1 <= table_len <= 16 ==> r == Ok::<u16, SaturnError>(16u16),
        17 <= table_len <= 256 ==> r == Ok::<u16, SaturnError>(256u16),
        257 <= table_len <= 1024 ==> r == Ok::<u16, SaturnError>(1024u16),
        1025 <= table_len <= 2048 ==> r == Ok::<u16, SaturnError>(2048u16),
        table_len == 0 || table_len > 2048 ==> r == Err::<u16, SaturnError>(
            SaturnError::ColorTableOverflow,
        ),
{
    if 1 <= table_len && table_len <= 16 {
        Ok(16)
    } else if 17 <= table_len && table_len <= 256 {
        Ok(256)
    } else if 257 <= table_len && table_len <= 1024 {
        Ok(1024)
    } else if 1025 <= table_len && table_len <= 2048 {
        Ok(2048)
    } else {
        Err(SaturnError::ColorTableOverflow)
    }
}

/// The bit depth a palette size selects.
pub fn get_bpp(number_of_colors: u16) -> (r: Result<u16, SaturnError>)
    ensures
        number_of_colors == 16 ==> r == Ok::<u16, SaturnError>(4u16),
        number_of_colors == 256 ==> r == Ok::<u16, SaturnError>(8u16),
        number_of_colors == 1024 || number_of_colors == 2048 ==> r == Ok::<u16, SaturnError>(
            11u16,
        ),
        number_of_colors != 16 && number_of_colors != 256 && number_of_colors != 1024
            && number_of_colors != 2048 ==> r == Err::<u16, SaturnError>(
            SaturnError::UnsupportedBpp,
        ),
{
    if number_of_colors == 16 {
        Ok(4)
    } else if number_of_colors == 256 {
        Ok(8)
    } else if number_of_colors == 1024 || number_of_colors == 2048 {
        Ok(11)
    } else {
        Err(SaturnError::UnsupportedBpp)
    }
}

/// The byte stream of a color list in the 16-bit packed form,
/// big-endian word by word.
pub open spec fn words16_bytes(colors: Seq<u32>) -> Seq<u8>
    decreases colors.len(),
{
    if colors.len() == 0 {
        Seq::empty()
    } else {
        words16_bytes(colors.drop_last()) + u16_be(pack_color16(colors.last()))
    }
}

/// The byte stream of a color list in the 32-bit form, big-endian
/// word by word.
pub open spec fn words32_bytes(colors: Seq<u32>) -> Seq<u8>
    decreases colors.len(),
{
    if colors.len() == 0 {
        Seq::empty()
    } else {
        words32_bytes(colors.drop_last()) + u32_be(pack_color32(colors.last()))
    }
}

/// Two bytes per color in the 16-bit form.
pub proof fn lemma_words16_len(colors: Seq<u32>)
    ensures
        words16_bytes(colors).len() == 2 * colors.len(),
    decreases colors.len(),
{
    if colors.len() > 0 {
        lemma_words16_len(colors.drop_last());
    }
}

/// Four bytes per color in the 32-bit form.
pub proof fn lemma_words32_len(colors: Seq<u32>)
    ensures
        words32_bytes(colors).len() == 4 * colors.len(),
    decreases colors.len(),
{
    if colors.len() > 0 {
        lemma_words32_len(colors.drop_last());
    }
}

/// Packs one color to its 16-bit hardware form.
pub fn color_word16(c: u32) -> (r: u16)
    ensures
        r == pack_color16(c),
{
    let red: u8 = ((c >> 16) & 0xff) as u8;
    let green: u8 = ((c >> 8) & 0xff) as u8;
    let blue: u8 = (c & 0xff) as u8;
    (((red >> 3) as u16) | (((green >> 3) as u16) << 5) | (((blue >> 3) as u16) << 10)) | 0x8000
}

/// Packs one color to its 32-bit hardware form.
pub fn color_word32(c: u32) -> (r: u32)
    ensures
        r == pack_color32(c),
{
    let red: u8 = ((c >> 16) & 0xff) as u8;
    let green: u8 = ((c >> 8) & 0xff) as u8;
    let blue: u8 = (c & 0xff) as u8;
    (red as u32) | ((green as u32) << 8) | ((blue as u32) << 16)
}

/// Emits a color list in the 16-bit form, big-endian.
pub fn pack_colors16(colors: &Vec<u32>) -> (r: Vec<u8>)
    ensures
        r@ == words16_bytes(colors@),
{
    let mut out: Vec<u8> = Vec::new();
    let mut i: usize = 0;
    while i < colors.len()
        invariant
            i <= colors@.len(),
            out@ == words16_bytes(colors@.take(i as int)),
        decreases colors@.len() - i,
    {
        let w = color_word16(colors[i]);
        crate::bytes::push_u16_be(&mut out, w);
        proof {
            assert(colors@.take(i as int + 1).drop_last() =~= colors@.take(i as int));
            assert(colors@.take(i as int + 1).last() == colors@[i as int]);
        }
        i += 1;
    }
    proof {
        assert(colors@.take(colors@.len() as int) =~= colors@);
    }
    out
}

/// Emits a color list in the 32-bit form, big-endian.
pub fn pack_colors32(colors: &Vec<u32>) -> (r: Vec<u8>)
    ensures
        r@ == words32_bytes(colors@),
{
    let mut out: Vec<u8> = Vec::new();
    let mut i: usize = 0;
    while i < colors.len()
        invariant
            i <= colors@.len(),
            out@ == words32_bytes(colors@.take(i as int)),
        decreases colors@.len() - i,
    {
        let w = color_word32(colors[i]);
        crate::bytes::push_u32_be(&mut out, w);
        proof {
            assert(colors@.take(i as int + 1).drop_last() =~= colors@.take(i as int));
            assert(colors@.take(i as int + 1).last() == colors@[i as int]);
        }
        i += 1;
    }
    proof {
        assert(colors@.take(colors@.len() as int) =~= colors@);
    }
    out
}

} // verus!
