//! Bitmap text atlas: the public-domain 8x8 font scaled to any cell size by
//! nearest-neighbour sampling, baked in two colours.
use vstd::prelude::*;
use crate::pixbuf::{bake_mask, bit_set, draw_glyph_run, filled, glyph_run, lemma_overwrite_block, mask_glyph, run_fits, table_block, Mask};
use crate::text::encode_bytes;
use super::{Pixel, Renderer};

verus! {

/// Width of a source glyph in pixels.
pub const FONT_W: usize = 8;

/// Height of a source glyph in pixels.
pub const FONT_H: usize = 8;

/// Number of glyphs in the atlas.
pub const NUM_GLYPHS: usize = 128;

/// The 8x8 font: one entry per ASCII code, one byte per row; bit `n` of a
/// row byte is the pixel in column `n`.
pub const FONT8X8: [[u8; 8]; 128] = [
    [0x00, 0x00, 0x00, 0x00, 0x00, 0x00, 0x00, 0x00],
    [0x00, 0x00, 0x00, 0x00, 0x00, 0x00, 0x00, 0x00],
    [0x00, 0x00, 0x00, 0x00, 0x00, 0x00, 0x00, 0x00],
    [0x00, 0x00, 0x00, 0x00, 0x00, 0x00, 0x00, 0x00],
    [0x00, 0x00, 0x00, 0x00, 0x00, 0x00, 0x00, 0x00],
    [0x00, 0x00, 0x00, 0x00, 0x00, 0x00, 0x00, 0x00],
    [0x00, 0x00, 0x00, 0x00, 0x00, 0x00, 0x00, 0x00],
    [0x00, 0x00, 0x00, 0x00, 0x00, 0x00, 0x00, 0x00],
    [0x00, 0x00, 0x00, 0x00, 0x00, 0x00, 0x00, 0x00],
    [0x00, 0x00, 0x00, 0x00, 0x00, 0x00, 0x00, 0x00],
    [0x00, 0x00, 0x00, 0x00, 0x00, 0x00, 0x00, 0x00],
    [0x00, 0x00, 0x00, 0x00, 0x00, 0x00, 0x00, 0x00],
    [0x00, 0x00, 0x00, 0x00, 0x00, 0x00, 0x00, 0x00],
    [0x00, 0x00, 0x00, 0x00, 0x00, 0x00, 0x00, 0x00],
    [0x00, 0x00, 0x00, 0x00, 0x00, 0x00, 0x00, 0x00],
    [0x00, 0x00, 0x00, 0x00, 0x00, 0x00, 0x00, 0x00],
    [0x00, 0x00, 0x00, 0x00, 0x00, 0x00, 0x00, 0x00],
    [0x00, 0x00, 0x00, 0x00, 0x00, 0x00, 0x00, 0x00],
    [0x00, 0x00, 0x00, 0x00, 0x00, 0x00, 0x00, 0x00],
    [0x00, 0x00, 0x00, 0x00, 0x00, 0x00, 0x00, 0x00],
    [0x00, 0x00, 0x00, 0x00, 0x00, 0x00, 0x00, 0x00],
    [0x00, 0x00, 0x00, 0x00, 0x00, 0x00, 0x00, 0x00],
    [0x00, 0x00, 0x00, 0x00, 0x00, 0x00, 0x00, 0x00],
    [0x00, 0x00, 0x00, 0x00, 0x00, 0x00, 0x00, 0x00],
    [0x00, 0x00, 0x00, 0x00, 0x00, 0x00, 0x00, 0x00],
    [0x00, 0x00, 0x00, 0x00, 0x00, 0x00, 0x00, 0x00],
    [0x00, 0x00, 0x00, 0x00, 0x00, 0x00, 0x00, 0x00],
    [0x00, 0x00, 0x00, 0x00, 0x00, 0x00, 0x00, 0x00],
    [0x00, 0x00, 0x00, 0x00, 0x00, 0x00, 0x00, 0x00],
    [0x00, 0x00, 0x00, 0x00, 0x00, 0x00, 0x00, 0x00],
    [0x00, 0x00, 0x00, 0x00, 0x00, 0x00, 0x00, 0x00],
    [0x00, 0x00, 0x00, 0x00, 0x00, 0x00, 0x00, 0x00],
    [0x00, 0x00, 0x00, 0x00, 0x00, 0x00, 0x00, 0x00],
    [0x18, 0x3C, 0x3C, 0x18, 0x18, 0x00, 0x18, 0x00],  // !
    [0x36, 0x36, 0x00, 0x00, 0x00, 0x00, 0x00, 0x00],  // "
    [0x36, 0x36, 0x7F, 0x36, 0x7F, 0x36, 0x36, 0x00],  // #
    [0x0C, 0x3E, 0x03, 0x1E, 0x30, 0x1F, 0x0C, 0x00],  // $
    [0x00, 0x63, 0x33, 0x18, 0x0C, 0x66, 0x63, 0x00],  // %
    [0x1C, 0x36, 0x1C, 0x6E, 0x3B, 0x33, 0x6E, 0x00],  // &
    [0x06, 0x06, 0x03, 0x00, 0x00, 0x00, 0x00, 0x00],  // '
    [0x18, 0x0C, 0x06, 0x06, 0x06, 0x0C, 0x18, 0x00],  // (
    [0x06, 0x0C, 0x18, 0x18, 0x18, 0x0C, 0x06, 0x00],  // )
    [0x00, 0x66, 0x3C, 0xFF, 0x3C, 0x66, 0x00, 0x00],  // *
    [0x00, 0x0C, 0x0C, 0x3F, 0x0C, 0x0C, 0x00, 0x00],  // +
    [0x00, 0x00, 0x00, 0x00, 0x00, 0x0C, 0x0C, 0x06],  // ,
    [0x00, 0x00, 0x00, 0x3F, 0x00, 0x00, 0x00, 0x00],  // -
    [0x00, 0x00, 0x00, 0x00, 0x00, 0x0C, 0x0C, 0x00],  // .
    [0x60, 0x30, 0x18, 0x0C, 0x06, 0x03, 0x01, 0x00],  // /
    [0x3E, 0x63, 0x73, 0x7B, 0x6F, 0x67, 0x3E, 0x00],  // 0
    [0x0C, 0x0E, 0x0C, 0x0C, 0x0C, 0x0C, 0x3F, 0x00],  // 1
    [0x1E, 0x33, 0x30, 0x1C, 0x06, 0x33, 0x3F, 0x00],  // 2
    [0x1E, 0x33, 0x30, 0x1C, 0x30, 0x33, 0x1E, 0x00],  // 3
    [0x38, 0x3C, 0x36, 0x33, 0x7F, 0x30, 0x78, 0x00],  // 4
    [0x3F, 0x03, 0x1F, 0x30, 0x30, 0x33, 0x1E, 0x00],  // 5
    [0x1C, 0x06, 0x03, 0x1F, 0x33, 0x33, 0x1E, 0x00],  // 6
    [0x3F, 0x33, 0x30, 0x18, 0x0C, 0x0C, 0x0C, 0x00],  // 7
    [0x1E, 0x33, 0x33, 0x1E, 0x33, 0x33, 0x1E, 0x00],  // 8
    [0x1E, 0x33, 0x33, 0x3E, 0x30, 0x18, 0x0E, 0x00],  // 9
    [0x00, 0x0C, 0x0C, 0x00, 0x00, 0x0C, 0x0C, 0x00],  // :
    [0x00, 0x0C, 0x0C, 0x00, 0x00, 0x0C, 0x0C, 0x06],  // ;
    [0x18, 0x0C, 0x06, 0x03, 0x06, 0x0C, 0x18, 0x00],  // <
    [0x00, 0x00, 0x3F, 0x00, 0x00, 0x3F, 0x00, 0x00],  // =
    [0x06, 0x0C, 0x18, 0x30, 0x18, 0x0C, 0x06, 0x00],  // >
    [0x1E, 0x33, 0x30, 0x18, 0x0C, 0x00, 0x0C, 0x00],  // ?
    [0x3E, 0x63, 0x7B, 0x7B, 0x7B, 0x03, 0x1E, 0x00],  // @
    [0x0C, 0x1E, 0x33, 0x33, 0x3F, 0x33, 0x33, 0x00],  // A
    [0x3F, 0x66, 0x66, 0x3E, 0x66, 0x66, 0x3F, 0x00],  // B
    [0x3C, 0x66, 0x03, 0x03, 0x03, 0x66, 0x3C, 0x00],  // C
    [0x1F, 0x36, 0x66, 0x66, 0x66, 0x36, 0x1F, 0x00],  // D
    [0x7F, 0x46, 0x16, 0x1E, 0x16, 0x46, 0x7F, 0x00],  // E
    [0x7F, 0x46, 0x16, 0x1E, 0x16, 0x06, 0x0F, 0x00],  // F
    [0x3C, 0x66, 0x03, 0x03, 0x73, 0x66, 0x7C, 0x00],  // G
    [0x33, 0x33, 0x33, 0x3F, 0x33, 0x33, 0x33, 0x00],  // H
    [0x1E, 0x0C, 0x0C, 0x0C, 0x0C, 0x0C, 0x1E, 0x00],  // I
    [0x78, 0x30, 0x30, 0x30, 0x33, 0x33, 0x1E, 0x00],  // J
    [0x67, 0x66, 0x36, 0x1E, 0x36, 0x66, 0x67, 0x00],  // K
    [0x0F, 0x06, 0x06, 0x06, 0x46, 0x66, 0x7F, 0x00],  // L
    [0x63, 0x77, 0x7F, 0x7F, 0x6B, 0x63, 0x63, 0x00],  // M
    [0x63, 0x67, 0x6F, 0x7B, 0x73, 0x63, 0x63, 0x00],  // N
    [0x1C, 0x36, 0x63, 0x63, 0x63, 0x36, 0x1C, 0x00],  // O
    [0x3F, 0x66, 0x66, 0x3E, 0x06, 0x06, 0x0F, 0x00],  // P
    [0x1E, 0x33, 0x33, 0x33, 0x3B, 0x1E, 0x38, 0x00],  // Q
    [0x3F, 0x66, 0x66, 0x3E, 0x36, 0x66, 0x67, 0x00],  // R
    [0x1E, 0x33, 0x07, 0x0E, 0x38, 0x33, 0x1E, 0x00],  // S
    [0x3F, 0x2D, 0x0C, 0x0C, 0x0C, 0x0C, 0x1E, 0x00],  // T
    [0x33, 0x33, 0x33, 0x33, 0x33, 0x33, 0x3F, 0x00],  // U
    [0x33, 0x33, 0x33, 0x33, 0x33, 0x1E, 0x0C, 0x00],  // V
    [0x63, 0x63, 0x63, 0x6B, 0x7F, 0x77, 0x63, 0x00],  // W
    [0x63, 0x63, 0x36, 0x1C, 0x1C, 0x36, 0x63, 0x00],  // X
    [0x33, 0x33, 0x33, 0x1E, 0x0C, 0x0C, 0x1E, 0x00],  // Y
    [0x7F, 0x63, 0x31, 0x18, 0x4C, 0x66, 0x7F, 0x00],  // Z
    [0x1E, 0x06, 0x06, 0x06, 0x06, 0x06, 0x1E, 0x00],  // [
    [0x03, 0x06, 0x0C, 0x18, 0x30, 0x60, 0x40, 0x00],  // \
    [0x1E, 0x18, 0x18, 0x18, 0x18, 0x18, 0x1E, 0x00],  // ]
    [0x08, 0x1C, 0x36, 0x63, 0x00, 0x00, 0x00, 0x00],  // ^
    [0x00, 0x00, 0x00, 0x00, 0x00, 0x00, 0x00, 0xFF],  // _
    [0x0C, 0x0C, 0x18, 0x00, 0x00, 0x00, 0x00, 0x00],  // `
    [0x00, 0x00, 0x1E, 0x30, 0x3E, 0x33, 0x6E, 0x00],  // a
    [0x07, 0x06, 0x06, 0x3E, 0x66, 0x66, 0x3B, 0x00],  // b
    [0x00, 0x00, 0x1E, 0x33, 0x03, 0x33, 0x1E, 0x00],  // c
    [0x38, 0x30, 0x30, 0x3E, 0x33, 0x33, 0x6E, 0x00],  // d
    [0x00, 0x00, 0x1E, 0x33, 0x3F, 0x03, 0x1E, 0x00],  // e
    [0x1C, 0x36, 0x06, 0x0F, 0x06, 0x06, 0x0F, 0x00],  // f
    [0x00, 0x00, 0x6E, 0x33, 0x33, 0x3E, 0x30, 0x1F],  // g
    [0x07, 0x06, 0x36, 0x6E, 0x66, 0x66, 0x67, 0x00],  // h
    [0x0C, 0x00, 0x0E, 0x0C, 0x0C, 0x0C, 0x1E, 0x00],  // i
    [0x30, 0x00, 0x30, 0x30, 0x30, 0x33, 0x33, 0x1E],  // j
    [0x07, 0x06, 0x66, 0x36, 0x1E, 0x36, 0x67, 0x00],  // k
    [0x0E, 0x0C, 0x0C, 0x0C, 0x0C, 0x0C, 0x1E, 0x00],  // l
    [0x00, 0x00, 0x33, 0x7F, 0x7F, 0x6B, 0x63, 0x00],  // m
    [0x00, 0x00, 0x1F, 0x33, 0x33, 0x33, 0x33, 0x00],  // n
    [0x00, 0x00, 0x1E, 0x33, 0x33, 0x33, 0x1E, 0x00],  // o
    [0x00, 0x00, 0x3B, 0x66, 0x66, 0x3E, 0x06, 0x0F],  // p
    [0x00, 0x00, 0x6E, 0x33, 0x33, 0x3E, 0x30, 0x78],  // q
    [0x00, 0x00, 0x3B, 0x6E, 0x66, 0x06, 0x0F, 0x00],  // r
    [0x00, 0x00, 0x3E, 0x03, 0x1E, 0x30, 0x1F, 0x00],  // s
    [0x08, 0x0C, 0x3E, 0x0C, 0x0C, 0x2C, 0x18, 0x00],  // t
    [0x00, 0x00, 0x33, 0x33, 0x33, 0x33, 0x6E, 0x00],  // u
    [0x00, 0x00, 0x33, 0x33, 0x33, 0x1E, 0x0C, 0x00],  // v
    [0x00, 0x00, 0x63, 0x6B, 0x7F, 0x7F, 0x36, 0x00],  // w
    [0x00, 0x00, 0x63, 0x36, 0x1C, 0x36, 0x63, 0x00],  // x
    [0x00, 0x00, 0x33, 0x33, 0x33, 0x3E, 0x30, 0x1F],  // y
    [0x00, 0x00, 0x3F, 0x19, 0x0C, 0x26, 0x3F, 0x00],  // z
    [0x38, 0x0C, 0x0C, 0x07, 0x0C, 0x0C, 0x38, 0x00],  // {
    [0x18, 0x18, 0x18, 0x00, 0x18, 0x18, 0x18, 0x00],  // |
    [0x07, 0x0C, 0x0C, 0x38, 0x0C, 0x0C, 0x07, 0x00],  // }
    [0x6E, 0x3B, 0x00, 0x00, 0x00, 0x00, 0x00, 0x00],  // ~
    [0x00, 0x00, 0x00, 0x00, 0x00, 0x00, 0x00, 0x00],
];

/// One glyph of the 8x8 font, sampled onto a `w` x `h` cell: cell pixel
/// `(x, y)` shows font pixel `(x * 8 / w, y * 8 / h)`.
pub struct FontGlyph {
    pub rows: [u8; 8],
}

impl Mask for FontGlyph {
    open spec fn lit(&self, w: int, h: int, x: int, y: int) -> bool {
        bit_set(self.rows@[y * FONT_H / h], (x * FONT_W / w) as u8)
    }

    open spec fn sized(&self, w: int, h: int) -> bool {
        w * FONT_W <= usize::MAX && h * FONT_H <= usize::MAX
    }

    fn is_lit(&self, w: usize, h: usize, x: usize, y: usize) -> (b: bool) {
        assert((y * FONT_H) / (h as int) < FONT_H) by (nonlinear_arith)
            requires
                y < h,
        ;
        assert((x * FONT_W) / (w as int) < FONT_W) by (nonlinear_arith)
            requires
                x < w,
        ;
        let sy = (y * FONT_H) / h;
        let sx = (x * FONT_W) / w;
        (self.rows[sy] >> (sx as u8)) & 1u8 == 1u8
    }
}

/// The glyph of `i` in `glyph_w` x `glyph_h` cells, `fg` on `bg`.
pub open spec fn chars_glyph(i: int, glyph_w: int, glyph_h: int, fg: Pixel, bg: Pixel) -> Seq<Pixel> {
    mask_glyph(FontGlyph { rows: FONT8X8@[i] }, glyph_w, glyph_h, fg, bg)
}

/// The atlas of the 128 ASCII glyphs of the 8x8 font.
pub struct CharsAtlas {
    glyph_w: usize,
    glyph_h: usize,
    glyphs: Vec<Pixel>,
}

impl CharsAtlas {
    /// Width of a glyph in pixels.
    pub closed spec fn width(&self) -> nat {
        self.glyph_w as nat
    }

    /// Height of a glyph in pixels.
    pub closed spec fn height(&self) -> nat {
        self.glyph_h as nat
    }

    /// The 128 glyphs, one `width * height` block after the other.
    pub closed spec fn glyph_table(&self) -> Seq<Pixel> {
        self.glyphs@
    }

    /// The glyph table holds 128 blocks.
    pub closed spec fn wf(&self) -> bool {
        self.glyphs@.len() == NUM_GLYPHS * (self.glyph_w * self.glyph_h)
    }

    /// Bakes the 128 glyphs of the 8x8 font scaled to `glyph_w` x `glyph_h`.
    pub fn new(glyph_w: usize, glyph_h: usize, fg: Pixel, bg: Pixel) -> (a: Self)
        requires
            NUM_GLYPHS * (glyph_h * glyph_w) <= usize::MAX,
            glyph_w * FONT_W <= usize::MAX,
            glyph_h * FONT_H <= usize::MAX,
        ensures
            a.wf(),
            a.width() == glyph_w,
            a.height() == glyph_h,
            forall|i: int|
                0 <= i < NUM_GLYPHS ==> #[trigger] table_block(a.glyph_table(), i, (glyph_w * glyph_h) as int)
                    == chars_glyph(i, glyph_w as int, glyph_h as int, fg, bg),
    {
        assert(glyph_h * glyph_w == glyph_w * glyph_h) by (nonlinear_arith);
        let n = glyph_h * glyph_w;
        let mut glyphs = filled(bg, NUM_GLYPHS * n);
        let mut i: usize = 0;
        while i < NUM_GLYPHS
            invariant
                i <= NUM_GLYPHS,
                n == glyph_w * glyph_h,
                NUM_GLYPHS * n <= usize::MAX,
                glyph_w * FONT_W <= usize::MAX,
                glyph_h * FONT_H <= usize::MAX,
                glyphs@.len() == NUM_GLYPHS * n,
                forall|j: int|
                    0 <= j < i ==> #[trigger] table_block(glyphs@, j, n as int) == chars_glyph(
                        j,
                        glyph_w as int,
                        glyph_h as int,
                        fg,
                        bg,
                    ),
            decreases NUM_GLYPHS - i,
        {
            assert(i * n + n <= NUM_GLYPHS * n) by (nonlinear_arith)
                requires
                    i < NUM_GLYPHS,
            ;
            let ghost before = glyphs@;
            let mask = FontGlyph { rows: FONT8X8[i] };
            bake_mask(glyphs.as_mut_slice(), i * n, glyph_w, glyph_h, &mask, fg, bg);
            proof {
                lemma_overwrite_block(
                    before,
                    NUM_GLYPHS as int,
                    n as int,
                    i as int,
                    chars_glyph(i as int, glyph_w as int, glyph_h as int, fg, bg),
                );
            }
            i = i + 1;
        }
        CharsAtlas { glyph_w, glyph_h, glyphs }
    }
}

impl Renderer for CharsAtlas {
    open spec fn spec_cell_height(&self) -> nat {
        self.height()
    }

    open spec fn spec_char_width(&self, c: char) -> nat {
        self.width()
    }

    /// The run of glyphs, one per byte of `text`, fits in the buffer.
    open spec fn can_draw(&self, len: nat, stride: nat, x: nat, y: nat, text: Seq<char>) -> bool {
        &&& self.wf()
        &&& run_fits(
            len as int,
            stride as int,
            x as int,
            y as int,
            encode_bytes(text).len() as int,
            self.width() as int,
            self.height() as int,
        )
    }

    /// Byte `j` of the UTF-8 encoding of `text` pastes glyph `byte % 128` at
    /// `(x + j * width, y)`.
    open spec fn spec_draw(&self, fb: Seq<Pixel>, stride: nat, x: nat, y: nat, text: Seq<char>) -> Seq<Pixel> {
        glyph_run(
            fb,
            stride as int,
            x as int,
            y as int,
            encode_bytes(text),
            self.glyph_table(),
            NUM_GLYPHS as int,
            self.width() as int,
            self.height() as int,
            encode_bytes(text).len(),
        )
    }

    fn draw(&self, fb: &mut [Pixel], stride: usize, x: usize, y: usize, text: &str) {
        let bytes = text.as_bytes();
        draw_glyph_run(fb, stride, x, y, bytes, self.glyphs.as_slice(), NUM_GLYPHS, self.glyph_w, self.glyph_h);
    }

    fn cell_height(&self) -> (h: usize) {
        self.glyph_h
    }

    fn char_width(&self, c: char) -> (w: usize) {
        self.glyph_w
    }
}

} // verus!
