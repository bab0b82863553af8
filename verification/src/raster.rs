//! Bitmap font atlas: any one-byte-per-row bitmap font scaled to any cell
//! size by nearest-neighbour sampling, baked in two colours.
use vstd::prelude::*;
use crate::pixbuf::{
    bake_mask, bit_set, draw_glyph_run, filled, glyph_run, lemma_overwrite_block, mask_glyph,
    paste_rows, run_fits, table_block, Mask, paste_block, slice_range, block_fits,
};
use crate::pixel::PixelFormat;
use crate::render::{sum_of, Renderer};
use vstd::utf8::{is_ascii_chars, is_ascii_chars_encode_utf8};
use crate::text::encode_bytes;

verus! {

/// A compiled-in bitmap font: `glyphs` glyphs of `font_w` x `font_h`
/// pixels; `bitmap` holds one byte per row, glyph after glyph, and bit `n`
/// of a row byte is the pixel in column `n`.
pub struct BitmapFont {
    pub font_w: usize,
    pub font_h: usize,
    pub glyphs: usize,
    pub bitmap: &'static [u8],
}

impl BitmapFont {
    /// The bitmap holds every row of every glyph, and a row fits in a byte.
    pub open spec fn wf(&self) -> bool {
        &&& self.font_w <= 8
        &&& self.bitmap@.len() >= self.glyphs * self.font_h
    }

    /// Row `row` of glyph `glyph` (taken modulo the glyph count).
    fn row(&self, glyph: usize, row: usize) -> (r: u8)
        requires
            self.wf(),
            self.glyphs > 0,
            row < self.font_h || (self.font_h == 0 && row == 0 && self.bitmap@.len() > 0),
        ensures
            r == self.bitmap@[(glyph % self.glyphs) * self.font_h + row],
    {
        let g = glyph % self.glyphs;
        let _len = self.bitmap.len();
        assert(g * self.font_h + row < self.glyphs * self.font_h || (self.font_h == 0 && g * self.font_h + row == 0)) by (nonlinear_arith)
            requires
                g < self.glyphs,
                row < self.font_h || (self.font_h == 0 && row == 0),
        ;
        self.bitmap[g * self.font_h + row]
    }
}

/// Glyph `index` of a bitmap font, sampled onto a `w` x `h` cell: cell pixel
/// `(x, y)` shows font pixel `(x * font_w / w, y * font_h / h)`.
pub struct BitmapGlyph<'a> {
    pub font: &'a BitmapFont,
    pub index: usize,
}

impl<'a> Mask for BitmapGlyph<'a> {
    open spec fn lit(&self, w: int, h: int, x: int, y: int) -> bool {
        let f = self.font;
        bit_set(
            f.bitmap@[(self.index % f.glyphs) * f.font_h + y * f.font_h / h],
            (x * f.font_w / w) as u8,
        )
    }

    open spec fn sized(&self, w: int, h: int) -> bool {
        &&& self.font.wf()
        &&& self.font.glyphs > 0
        &&& self.font.font_h == 0 && w > 0 && h > 0 ==> self.font.bitmap@.len() > 0
        &&& w * self.font.font_w <= usize::MAX
        &&& h * self.font.font_h <= usize::MAX
    }

    fn is_lit(&self, w: usize, h: usize, x: usize, y: usize) -> (b: bool) {
        let f = self.font;
        assert(y * f.font_h <= h * f.font_h && ((y * f.font_h) / (h as int) < f.font_h || (f.font_h == 0
            && (y * f.font_h) / (h as int) == 0))) by (nonlinear_arith)
            requires
                y < h,
        ;
        assert(x * f.font_w <= w * f.font_w && (x * f.font_w) / (w as int) < 8) by (nonlinear_arith)
            requires
                x < w,
                f.font_w <= 8,
        ;
        let sy = (y * f.font_h) / h;
        let row = f.row(self.index, sy);
        let sx = (x * f.font_w) / w;
        (row >> (sx as u8)) & 1u8 == 1u8
    }
}

/// Glyph `i` of `font` in `glyph_w` x `glyph_h` cells, `fg` on `bg`.
pub open spec fn raster_glyph<P>(font: &BitmapFont, i: int, glyph_w: int, glyph_h: int, fg: P, bg: P) -> Seq<P> {
    mask_glyph(BitmapGlyph { font, index: i as usize }, glyph_w, glyph_h, fg, bg)
}

/// An atlas of every glyph of a bitmap font at one cell size.
pub struct RasterAtlas<P> {
    glyph_w: usize,
    glyph_h: usize,
    font: &'static BitmapFont,
    glyphs: Vec<P>,
}

impl<P: PixelFormat> RasterAtlas<P> {
    /// Width of a glyph in pixels.
    pub closed spec fn width(&self) -> nat {
        self.glyph_w as nat
    }

    /// Height of a glyph in pixels.
    pub closed spec fn height(&self) -> nat {
        self.glyph_h as nat
    }

    /// The font the atlas was baked from.
    pub closed spec fn source(&self) -> BitmapFont {
        *self.font
    }

    /// The baked glyphs, one `width * height` block per font glyph.
    pub closed spec fn glyph_table(&self) -> Seq<P> {
        self.glyphs@
    }

    /// The glyph table holds one block per font glyph.
    pub closed spec fn wf(&self) -> bool {
        self.glyphs@.len() == self.font.glyphs * (self.glyph_w * self.glyph_h)
    }

    /// Bakes every glyph of `font` scaled to `glyph_w` x `glyph_h`, `fg` on `bg`.
    pub fn new(font: &'static BitmapFont, glyph_w: usize, glyph_h: usize, fg: P, bg: P) -> (a: Self)
        requires
            font.wf(),
            font.font_h == 0 && font.glyphs > 0 && glyph_w > 0 && glyph_h > 0 ==> font.bitmap@.len() > 0,
            glyph_h * glyph_w <= usize::MAX,
            font.glyphs * (glyph_h * glyph_w) <= usize::MAX,
            glyph_w * font.font_w <= usize::MAX,
            glyph_h * font.font_h <= usize::MAX,
        ensures
            a.wf(),
            a.width() == glyph_w,
            a.height() == glyph_h,
            a.source() == *font,
            forall|i: int|
                0 <= i < font.glyphs ==> #[trigger] table_block(a.glyph_table(), i, (glyph_w * glyph_h) as int)
                    == raster_glyph(font, i, glyph_w as int, glyph_h as int, fg, bg),
    {
        assert(glyph_h * glyph_w == glyph_w * glyph_h) by (nonlinear_arith);
        let n = glyph_h * glyph_w;
        let count = font.glyphs;
        let mut glyphs = filled(bg, count * n);
        let mut i: usize = 0;
        while i < count
            invariant
                i <= count == font.glyphs,
                font.wf(),
                font.font_h == 0 && font.glyphs > 0 && glyph_w > 0 && glyph_h > 0 ==> font.bitmap@.len() > 0,
                n == glyph_w * glyph_h,
                count * n <= usize::MAX,
                glyph_w * font.font_w <= usize::MAX,
                glyph_h * font.font_h <= usize::MAX,
                glyphs@.len() == count * n,
                forall|j: int|
                    0 <= j < i ==> #[trigger] table_block(glyphs@, j, n as int) == raster_glyph(
                        font,
                        j,
                        glyph_w as int,
                        glyph_h as int,
                        fg,
                        bg,
                    ),
            decreases count - i,
        {
            assert(i * n + n <= count * n) by (nonlinear_arith)
                requires
                    i < count,
            ;
            let ghost before = glyphs@;
            let mask = BitmapGlyph { font, index: i };
            bake_mask(glyphs.as_mut_slice(), i * n, glyph_w, glyph_h, &mask, fg, bg);
            proof {
                lemma_overwrite_block(
                    before,
                    count as int,
                    n as int,
                    i as int,
                    raster_glyph(font, i as int, glyph_w as int, glyph_h as int, fg, bg),
                );
            }
            i = i + 1;
        }
        RasterAtlas { glyph_w, glyph_h, font, glyphs }
    }
}

impl<P: PixelFormat> Renderer<P> for RasterAtlas<P> {
    open spec fn spec_cell_height(&self) -> nat {
        self.height()
    }

    open spec fn spec_char_width(&self, c: char) -> nat {
        self.width()
    }

    /// The run of glyphs, one per byte of `text`, fits in the buffer; a
    /// non-empty text needs a font with glyphs.
    open spec fn can_blit(&self, len: nat, stride: nat, x: nat, y: nat, text: Seq<char>) -> bool {
        &&& self.wf()
        &&& encode_bytes(text).len() > 0 ==> self.source().glyphs > 0
        &&& run_fits(
            len as int,
            stride as int,
            x as int,
            y as int,
            encode_bytes(text).len() as int,
            self.width() as int,
            self.height() as int,
        )
    }

    /// Byte `j` of the UTF-8 encoding of `text` pastes glyph `byte % glyphs`
    /// at `(x + j * width, y)`; the pen ends after the last glyph.
    open spec fn spec_blit(&self, fb: Seq<P>, stride: nat, x: nat, y: nat, text: Seq<char>) -> (Seq<P>, nat) {
        let bytes = encode_bytes(text);
        (
            glyph_run(
                fb,
                stride as int,
                x as int,
                y as int,
                bytes,
                self.glyph_table(),
                self.source().glyphs as int,
                self.width() as int,
                self.height() as int,
                bytes.len(),
            ),
            x + bytes.len() * self.width(),
        )
    }

    /// The glyph of the character's code fits in the buffer.
    open spec fn can_blit_char(&self, len: nat, stride: nat, x: nat, y: nat, c: char) -> bool {
        &&& self.wf()
        &&& self.source().glyphs > 0
        &&& y + self.height() <= usize::MAX
        &&& x + self.width() <= usize::MAX
        &&& block_fits(len as int, stride as int, x as int, y as int, self.width() as int, self.height() as int)
    }

    /// Glyph `code % glyphs` of the character's code point is pasted at `(x, y)`.
    open spec fn spec_blit_char(&self, fb: Seq<P>, stride: nat, x: nat, y: nat, c: char) -> (Seq<P>, nat) {
        let n = (self.width() * self.height()) as int;
        (
            paste_rows(
                fb,
                stride as int,
                x as int,
                y as int,
                table_block(self.glyph_table(), (c as u32) as int % self.source().glyphs as int, n),
                self.width() as int,
                self.height(),
            ),
            x + self.width(),
        )
    }

    fn blit(&self, fb: &mut [P], stride: usize, x: usize, y: usize, text: &str) -> (end: usize) {
        let bytes = text.as_bytes();
        if bytes.len() == 0 {
            return x;
        }
        draw_glyph_run(fb, stride, x, y, bytes, self.glyphs.as_slice(), self.font.glyphs, self.glyph_w, self.glyph_h)
    }

    fn blit_char(&self, fb: &mut [P], stride: usize, x: usize, y: usize, ch: char) -> (end: usize) {
        let (gw, gh) = (self.glyph_w, self.glyph_h);
        let _len = self.glyphs.len();
        assert(gw * gh <= self.font.glyphs * (gw * gh)) by (nonlinear_arith)
            requires
                self.font.glyphs > 0,
        ;
        let n = gw * gh;
        let i = (ch as u32) as usize % self.font.glyphs;
        assert(i * n + n <= self.font.glyphs * n) by (nonlinear_arith)
            requires
                i < self.font.glyphs,
        ;
        let src = slice_range(self.glyphs.as_slice(), i * n, i * n + n);
        paste_block(fb, stride, x, y, src, gw, gh);
        x + gw
    }

    fn cell_height(&self) -> (h: usize) {
        self.glyph_h
    }

    fn char_width(&self, c: char) -> (w: usize) {
        self.glyph_w
    }
}


/// The sum of a constant `w` over `s` is `s.len() * w`.
proof fn lemma_sum_const<A>(s: Seq<A>, w: nat)
    ensures
        sum_of(s, |c: A| w) == s.len() * w,
    decreases s.len(),
{
    if s.len() > 0 {
        lemma_sum_const(s.drop_last(), w);
        assert((s.len() - 1) * w + w == s.len() * w) by (nonlinear_arith);
    }
}

/// Blitting ASCII text returns the pen after it: `x` plus the summed
/// advance widths of its characters, which is what `text_width` measures.
pub proof fn lemma_raster_blit_end<P: PixelFormat>(
    a: &RasterAtlas<P>,
    fb: Seq<P>,
    stride: nat,
    x: nat,
    y: nat,
    text: Seq<char>,
)
    requires
        is_ascii_chars(text),
    ensures
        a.spec_blit(fb, stride, x, y, text).1 == x + sum_of(text, |c: char| a.spec_char_width(c)),
{
    is_ascii_chars_encode_utf8(text);
    lemma_sum_const(text, a.width());
    assert(sum_of(text, |c: char| a.spec_char_width(c)) == sum_of(text, |c: char| a.width())) by {
        assert((|c: char| a.spec_char_width(c)) =~= (|c: char| a.width()));
    }
}
} // verus!
