//! The font atlas: one square texture holding the glyphs of the first 256
//! characters, each in a cell of a 16 x 16 grid.
use vstd::prelude::*;
use crate::texture_library::TextureImage;

verus! {

/// Number of cells along each side of the atlas.
pub const ATLAS_CHAR_SIZE: u32 = 16;

/// Number of characters the atlas holds.
pub const MAX_LOADED_CHAR: u32 = 256;

/// Side of a cell, in pixels.
pub const CELL_SIZE: u32 = 128;

/// Side of the atlas, in pixels.
pub const ATLAS_SIZE: u32 = 2048;

/// Byte length of the atlas: four bytes per pixel.
pub open spec fn atlas_len() -> int {
    4 * 2048 * 2048int
}

/// The atlas after drawing the glyph `bitmap` (`w` x `h` coverage values,
/// row after row) with its top left corner at `(x, y)`, restricted to the
/// glyph pixels accepted by `drawn`: each drawn pixel gets the coverage value
/// in its four channels, every other byte keeps its value from `old`.
pub open spec fn blit(
    old: Seq<u8>,
    bitmap: Seq<u8>,
    w: int,
    h: int,
    x: int,
    y: int,
    drawn: spec_fn(int, int) -> bool,
) -> Seq<u8> {
    Seq::new(
        old.len(),
        |b: int|
            {
                let px = (b / 4) % 2048;
                let py = (b / 4) / 2048;
                if x <= px < x + w && y <= py < y + h && drawn(px - x, py - y) {
                    bitmap[(py - y) * w + (px - x)]
                } else {
                    old[b]
                }
            },
    )
}

/// The byte of channel `c` of the atlas pixel `(px, py)`: pixels are four
/// bytes each, row after row of 2048 pixels.
pub open spec fn pixel_byte(px: int, py: int, c: int) -> int {
    4 * (py * 2048 + px) + c
}

proof fn lemma_pixel_byte(px: int, py: int, c: int)
    requires
        0 <= px < 2048,
        0 <= py < 2048,
        0 <= c < 4,
    ensures
        0 <= pixel_byte(px, py, c) < atlas_len(),
        (pixel_byte(px, py, c) / 4) % 2048 == px,
        (pixel_byte(px, py, c) / 4) / 2048 == py,
{
    let k = py * 2048 + px;
    assert(pixel_byte(px, py, c) / 4 == k);
    assert(k % 2048 == px);
    assert(k / 2048 == py);
}

/// Drawing a whole glyph of `w` x `h` coverage values, row after row, with
/// its top left corner at `(x, y)`: glyph pixel `(i, j)` lands on atlas pixel
/// `(x + i, y + j)` with value `bitmap[j * w + i]` in its four channels, and
/// every pixel outside the glyph keeps its bytes.
pub proof fn lemma_blit_draws_pixels(before: Seq<u8>, bitmap: Seq<u8>, w: int, h: int, x: int, y: int)
    requires
        before.len() == atlas_len(),
        0 <= x,
        0 <= y,
        0 <= w,
        0 <= h,
        x + w <= 2048,
        y + h <= 2048,
    ensures
        blit(before, bitmap, w, h, x, y, whole_glyph()).len() == atlas_len(),
        forall|i: int, j: int, c: int|
            0 <= i < w && 0 <= j < h && 0 <= c < 4 ==> #[trigger] blit(
                before,
                bitmap,
                w,
                h,
                x,
                y,
                whole_glyph(),
            )[pixel_byte(x + i, y + j, c)] == bitmap[j * w + i],
        forall|px: int, py: int, c: int|
            0 <= px < 2048 && 0 <= py < 2048 && 0 <= c < 4 && !(x <= px < x + w && y <= py < y + h)
                ==> #[trigger] blit(before, bitmap, w, h, x, y, whole_glyph())[pixel_byte(px, py, c)]
                == before[pixel_byte(px, py, c)],
{
    let r = blit(before, bitmap, w, h, x, y, whole_glyph());
    assert forall|i: int, j: int, c: int|
        0 <= i < w && 0 <= j < h && 0 <= c < 4 implies #[trigger] r[pixel_byte(x + i, y + j, c)]
        == bitmap[j * w + i] by {
        lemma_pixel_byte(x + i, y + j, c);
    }
    assert forall|px: int, py: int, c: int|
        0 <= px < 2048 && 0 <= py < 2048 && 0 <= c < 4 && !(x <= px < x + w && y <= py < y + h)
            implies #[trigger] r[pixel_byte(px, py, c)] == before[pixel_byte(px, py, c)] by {
        lemma_pixel_byte(px, py, c);
    }
}

/// Every pixel of the glyph is drawn.
pub open spec fn whole_glyph() -> spec_fn(int, int) -> bool {
    |i: int, j: int| true
}

/// The pixels of the first `cols` columns, and the first `rows` pixels of column `cols`.
pub open spec fn drawn_before(cols: int, rows: int) -> spec_fn(int, int) -> bool {
    |i: int, j: int| i < cols || (i == cols && j < rows)
}

pub struct FontAtlas {
    /// RGBA bytes, row after row.
    pixels: Vec<u8>,
}

impl View for FontAtlas {
    type V = Seq<u8>;

    closed spec fn view(&self) -> Seq<u8> {
        self.pixels@
    }
}

impl FontAtlas {
    /// A transparent black atlas of `ATLAS_SIZE` x `ATLAS_SIZE` pixels.
    pub fn new() -> (r: FontAtlas)
        ensures
            r@ == Seq::new(atlas_len() as nat, |b: int| 0u8),
    {
        let len: usize = 4 * 2048 * 2048;
        let mut pixels: Vec<u8> = Vec::new();
        let mut b: usize = 0;
        while b < len
            invariant
                len == atlas_len(),
                0 <= b <= len,
                pixels@ == Seq::new(b as nat, |i: int| 0u8),
            decreases len - b,
        {
            pixels.push(0u8);
            b = b + 1;
        }
        FontAtlas { pixels }
    }

    /// Top left corner of the cell of the `i`-th character: cells are laid
    /// out row after row, 16 to a row.
    pub fn cell_origin(i: u32) -> (r: (u32, u32))
        requires
            i < MAX_LOADED_CHAR,
        ensures
            r.0 == (i % 16) * 128,
            r.1 == (i / 16) * 128,
    {
        (i % ATLAS_CHAR_SIZE * CELL_SIZE, i / ATLAS_CHAR_SIZE * CELL_SIZE)
    }

    /// Draw a glyph, `width` x `height` coverage values row after row, with
    /// its top left corner at `(x, y)`: each of its pixels gets the coverage
    /// value in its four channels.
    pub fn draw_glyph(&mut self, bitmap: &[u8], width: usize, height: usize, x: u32, y: u32)
        requires
            old(self)@.len() == atlas_len(),
            width * height <= bitmap@.len(),
            x + width <= 2048,
            y + height <= 2048,
        ensures
            final(self)@ == blit(old(self)@, bitmap@, width as int, height as int, x as int, y as int, whole_glyph()),
            final(self)@.len() == atlas_len(),
            forall|i: int, j: int, c: int|
                0 <= i < width && 0 <= j < height && 0 <= c < 4 ==> #[trigger] final(self)@[pixel_byte(
                    x + i,
                    y + j,
                    c,
                )] == bitmap@[j * width + i],
            forall|px: int, py: int, c: int|
                0 <= px < 2048 && 0 <= py < 2048 && 0 <= c < 4 && !(x <= px < x + width && y <= py < y
                    + height) ==> #[trigger] final(self)@[pixel_byte(px, py, c)] == old(self)@[pixel_byte(
                    px,
                    py,
                    c,
                )],
    {
        let ghost start = self@;
        let bitmap_len = bitmap.len();
        let xs = x as usize;
        let ys = y as usize;
        let mut i: usize = 0;
        while i < width
            invariant
                start == old(self)@,
                start.len() == atlas_len(),
                width * height <= bitmap@.len(),
                bitmap_len == bitmap@.len(),
                xs == x,
                ys == y,
                xs + width <= 2048,
                ys + height <= 2048,
                0 <= i <= width,
                self@ == blit(start, bitmap@, width as int, height as int, xs as int, ys as int, drawn_before(i as int, 0)),
            decreases width - i,
        {
            let mut j: usize = 0;
            while j < height
                invariant
                    start == old(self)@,
                    start.len() == atlas_len(),
                    width * height <= bitmap@.len(),
                    bitmap_len == bitmap@.len(),
                    xs == x,
                    ys == y,
                    xs + width <= 2048,
                    ys + height <= 2048,
                    0 <= i < width,
                    0 <= j <= height,
                    self@ == blit(start, bitmap@, width as int, height as int, xs as int, ys as int, drawn_before(i as int, j as int)),
                decreases height - j,
            {
                proof {
                    assert(j * width + i < width * height) by (nonlinear_arith)
                        requires
                            j < height,
                            i < width,
                    ;
                    assert(j * width + i < bitmap@.len());
                }
                let value = bitmap[j * width + i];
                let base: usize = 4 * ((ys + j) * 2048 + xs + i);
                let ghost before = self@;
                self.pixels.set(base, value);
                self.pixels.set(base + 1, value);
                self.pixels.set(base + 2, value);
                self.pixels.set(base + 3, value);
                proof {
                    let w = width as int;
                    let h = height as int;
                    let next = blit(start, bitmap@, w, h, xs as int, ys as int, drawn_before(i as int, j + 1));
                    assert forall|b: int| 0 <= b < self@.len() implies self@[b] == next[b] by {
                        let px = (b / 4) % 2048;
                        let py = (b / 4) / 2048;
                        if base <= b < base + 4 {
                            assert(px == xs + i && py == ys + j);
                        } else {
                            assert(!(px == xs + i && py == ys + j));
                        }
                    }
                    assert(self@ =~= next);
                }
                j = j + 1;
            }
            proof {
                let w = width as int;
                let h = height as int;
                let a = blit(start, bitmap@, w, h, xs as int, ys as int, drawn_before(i as int, h));
                let c = blit(start, bitmap@, w, h, xs as int, ys as int, drawn_before(i + 1, 0));
                assert(a =~= c);
            }
            i = i + 1;
        }
        proof {
            let w = width as int;
            let h = height as int;
            let a = blit(start, bitmap@, w, h, xs as int, ys as int, drawn_before(w, 0));
            let c = blit(start, bitmap@, w, h, xs as int, ys as int, whole_glyph());
            assert(a =~= c);
            lemma_blit_draws_pixels(start, bitmap@, w, h, xs as int, ys as int);
        }
    }

    /// The atlas as an image, `ATLAS_SIZE` pixels on each side.
    pub fn into_image(self) -> (r: TextureImage)
        ensures
            r.width == ATLAS_SIZE,
            r.height == ATLAS_SIZE,
            r.pixels@ == self@,
    {
        TextureImage { width: ATLAS_SIZE, height: ATLAS_SIZE, pixels: self.pixels }
    }
}

} // verus!
