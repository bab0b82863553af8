//! Monospace atlas baked from a TrueType font: the 128 ASCII glyphs, each in
//! a cell as wide as the widest advance, coverage blended between the
//! foreground and background colours.
use vstd::prelude::*;
use crate::icon::{blend_channel, blend_u32};
use crate::pixbuf::{draw_glyph_run, filled, glyph_run, lemma_overwrite_block, overwrite, run_fits, table_block};
use crate::pixel::{rgb565_channels, rgb565_word, Rgb565};
use crate::text::encode_bytes;
use super::tt::tt_blend;
use super::{Pixel, Renderer};

verus! {

/// The widest of `advs` (rounded-up advance widths), at least 1.
pub open spec fn widest(advs: Seq<usize>) -> nat
    decreases advs.len(),
{
    if advs.len() == 0 {
        1
    } else {
        let w = widest(advs.drop_last());
        if advs.last() > w {
            advs.last() as nat
        } else {
            w
        }
    }
}

/// The cell width of a monospace atlas whose glyphs advance by `advs`: the
/// widest advance, and at least 1.
pub fn mono_cell_width(advs: &[usize]) -> (w: usize)
    ensures
        w == widest(advs@),
{
    let mut w: usize = 1;
    let mut i: usize = 0;
    while i < advs.len()
        invariant
            i <= advs@.len(),
            w == widest(advs@.take(i as int)),
        decreases advs@.len() - i,
    {
        assert(advs@.take(i + 1).drop_last() =~= advs@.take(i as int));
        if advs[i] > w {
            w = advs[i];
        }
        i = i + 1;
    }
    assert(advs@.take(advs@.len() as int) =~= advs@);
    w
}

/// The 8-bit channels of the RGB565 colours `fg` and `bg`:
/// `(fg_r, fg_g, fg_b, bg_r, bg_g, bg_b)`.
pub fn channels(fg: Pixel, bg: Pixel) -> (c: (u32, u32, u32, u32, u32, u32))
    ensures
        (c.0 as u8, c.1 as u8, c.2 as u8) == rgb565_channels(fg),
        (c.3 as u8, c.4 as u8, c.5 as u8) == rgb565_channels(bg),
        c.0 <= 255 && c.1 <= 255 && c.2 <= 255 && c.3 <= 255 && c.4 <= 255 && c.5 <= 255,
{
    let (fr, fgr, fb) = Rgb565(fg).to_rgb();
    let (br, bgr, bb) = Rgb565(bg).to_rgb();
    (fr as u32, fgr as u32, fb as u32, br as u32, bgr as u32, bb as u32)
}

/// One RGB565 pixel blended with coverage `a` from the channels `f` over `b`.
pub open spec fn blend565(f: (u32, u32, u32), b: (u32, u32, u32), a: u8) -> Pixel {
    rgb565_word(
        blend_channel(f.0 as int, b.0 as int, a as int) as u8,
        blend_channel(f.1 as int, b.1 as int, a as int) as u8,
        blend_channel(f.2 as int, b.2 as int, a as int) as u8,
    )
}

/// Writes the blend of every coverage byte of `alpha` into
/// `dst[base .. base + alpha.len()]`.
pub fn blend_into(
    dst: &mut [Pixel],
    base: usize,
    alpha: &[u8],
    fg_r: u32,
    fg_g: u32,
    fg_b: u32,
    bg_r: u32,
    bg_g: u32,
    bg_b: u32,
)
    requires
        base + alpha@.len() <= old(dst)@.len(),
        fg_r <= 255,
        fg_g <= 255,
        fg_b <= 255,
        bg_r <= 255,
        bg_g <= 255,
        bg_b <= 255,
    ensures
        final(dst)@ == overwrite(
            old(dst)@,
            base as int,
            Seq::new(alpha@.len(), |k: int| blend565((fg_r, fg_g, fg_b), (bg_r, bg_g, bg_b), alpha@[k])),
        ),
{
    let ghost d0 = dst@;
    let ghost vals = Seq::new(alpha@.len(), |k: int| blend565((fg_r, fg_g, fg_b), (bg_r, bg_g, bg_b), alpha@[k]));
    let _len = dst.len();
    let n = alpha.len();
    let mut k: usize = 0;
    while k < n
        invariant
            k <= n == alpha@.len(),
            base + n <= d0.len() <= usize::MAX,
            fg_r <= 255 && fg_g <= 255 && fg_b <= 255 && bg_r <= 255 && bg_g <= 255 && bg_b <= 255,
            vals == Seq::new(alpha@.len(), |k: int| blend565((fg_r, fg_g, fg_b), (bg_r, bg_g, bg_b), alpha@[k])),
            dst@.len() == d0.len(),
            forall|i: int|
                0 <= i < d0.len() ==> #[trigger] dst@[i] == if base <= i < base + k {
                    vals[i - base]
                } else {
                    d0[i]
                },
        decreases n - k,
    {
        let a = alpha[k] as u32;
        let r = blend_u32(fg_r, bg_r, a);
        let g = blend_u32(fg_g, bg_g, a);
        let b = blend_u32(fg_b, bg_b, a);
        dst[base + k] = Rgb565::from_rgb(r as u8, g as u8, b as u8).0;
        k = k + 1;
    }
    assert(dst@ =~= overwrite(d0, base as int, vals));
}

/// Channel blending through `channels` is blending the colours.
proof fn lemma_blend565(fg: Pixel, bg: Pixel, c: (u32, u32, u32, u32, u32, u32), a: u8)
    requires
        (c.0 as u8, c.1 as u8, c.2 as u8) == rgb565_channels(fg),
        (c.3 as u8, c.4 as u8, c.5 as u8) == rgb565_channels(bg),
        c.0 <= 255 && c.1 <= 255 && c.2 <= 255 && c.3 <= 255 && c.4 <= 255 && c.5 <= 255,
    ensures
        blend565((c.0, c.1, c.2), (c.3, c.4, c.5), a) == tt_blend(fg, bg, a),
{
}

/// The monospace atlas: 128 glyphs of `cell_w` x `cell_h` pixels.
pub struct MonoAtlas {
    cell_w: usize,
    cell_h: usize,
    glyphs: Vec<Pixel>,
}

impl MonoAtlas {
    /// Width of every cell.
    pub closed spec fn width(&self) -> nat {
        self.cell_w as nat
    }

    /// Height of every cell.
    pub closed spec fn height(&self) -> nat {
        self.cell_h as nat
    }

    /// The 128 glyphs, one cell after the other.
    pub closed spec fn glyph_table(&self) -> Seq<Pixel> {
        self.glyphs@
    }

    /// The glyph table holds 128 cells.
    pub closed spec fn wf(&self) -> bool {
        self.glyphs@.len() == 128 * (self.cell_w * self.cell_h)
    }

    /// Bakes the 128 glyphs from their coverage cells: `alphas[i]` holds the
    /// `cell_w * cell_h` coverage bytes of ASCII code `i`, row-major, blended
    /// between `fg` and `bg`.
    pub fn bake(cell_w: usize, cell_h: usize, alphas: &[Vec<u8>], fg: Pixel, bg: Pixel) -> (a: Self)
        requires
            128 * (cell_w * cell_h) <= usize::MAX,
            alphas@.len() == 128,
            forall|i: int| 0 <= i < 128 ==> (#[trigger] alphas@[i])@.len() == cell_w * cell_h,
        ensures
            a.wf(),
            a.width() == cell_w,
            a.height() == cell_h,
            forall|i: int|
                0 <= i < 128 ==> #[trigger] table_block(a.glyph_table(), i, (cell_w * cell_h) as int) == Seq::new(
                    (cell_w * cell_h) as nat,
                    |k: int| tt_blend(fg, bg, alphas@[i]@[k]),
                ),
    {
        let (fg_r, fg_g, fg_b, bg_r, bg_g, bg_b) = channels(fg, bg);
        let cells = cell_w * cell_h;
        let mut glyphs = filled(bg, 128 * cells);
        let mut code: usize = 0;
        while code < 128
            invariant
                code <= 128,
                cells == cell_w * cell_h,
                128 * cells <= usize::MAX,
                alphas@.len() == 128,
                forall|i: int| 0 <= i < 128 ==> (#[trigger] alphas@[i])@.len() == cells,
                (fg_r as u8, fg_g as u8, fg_b as u8) == rgb565_channels(fg),
                (bg_r as u8, bg_g as u8, bg_b as u8) == rgb565_channels(bg),
                fg_r <= 255 && fg_g <= 255 && fg_b <= 255 && bg_r <= 255 && bg_g <= 255 && bg_b <= 255,
                glyphs@.len() == 128 * cells,
                forall|j: int|
                    0 <= j < code ==> #[trigger] table_block(glyphs@, j, cells as int) == Seq::new(
                        cells as nat,
                        |k: int| tt_blend(fg, bg, alphas@[j]@[k]),
                    ),
            decreases 128 - code,
        {
            assert(code * cells + cells <= 128 * cells) by (nonlinear_arith)
                requires
                    code < 128,
            ;
            let ghost before = glyphs@;
            let alpha = &alphas[code];
            assert(alpha@.len() == cells);
            blend_into(glyphs.as_mut_slice(), code * cells, alpha.as_slice(), fg_r, fg_g, fg_b, bg_r, bg_g, bg_b);
            proof {
                let cellv = Seq::new(cells as nat, |k: int| tt_blend(fg, bg, alphas@[code as int]@[k]));
                assert forall|k: int| 0 <= k < cells implies blend565(
                    (fg_r, fg_g, fg_b),
                    (bg_r, bg_g, bg_b),
                    alpha@[k],
                ) == tt_blend(fg, bg, alpha@[k]) by {
                    lemma_blend565(fg, bg, (fg_r, fg_g, fg_b, bg_r, bg_g, bg_b), alpha@[k]);
                }
                assert(Seq::new(alpha@.len(), |k: int| blend565((fg_r, fg_g, fg_b), (bg_r, bg_g, bg_b), alpha@[k]))
                    =~= cellv);
                lemma_overwrite_block(before, 128, cells as int, code as int, cellv);
            }
            code = code + 1;
        }
        MonoAtlas { cell_w, cell_h, glyphs }
    }
}

impl Renderer for MonoAtlas {
    open spec fn spec_cell_height(&self) -> nat {
        self.height()
    }

    open spec fn spec_char_width(&self, c: char) -> nat {
        self.width()
    }

    /// The run of cells, one per byte of `text`, fits in the buffer.
    open spec fn can_draw(&self, len: nat, stride: nat, x: nat, y: nat, text: Seq<char>) -> bool {
        &&& self.wf()
        &&& run_fits(
            len as int,
            stride as int,
            x as int,
            y as int,
            encode_bytes(text).len() as int,
            self.width() as int,
            self.height() as int,
        )
    }

    /// Byte `j` of the UTF-8 encoding of `text` pastes glyph `byte % 128` at
    /// `(x + j * width, y)`.
    open spec fn spec_draw(&self, fb: Seq<Pixel>, stride: nat, x: nat, y: nat, text: Seq<char>) -> Seq<Pixel> {
        glyph_run(
            fb,
            stride as int,
            x as int,
            y as int,
            encode_bytes(text),
            self.glyph_table(),
            128,
            self.width() as int,
            self.height() as int,
            encode_bytes(text).len(),
        )
    }

    fn draw(&self, fb: &mut [Pixel], stride: usize, x: usize, y: usize, text: &str) {
        let bytes = text.as_bytes();
        draw_glyph_run(fb, stride, x, y, bytes, self.glyphs.as_slice(), 128, self.cell_w, self.cell_h);
    }

    fn cell_height(&self) -> (h: usize) {
        self.cell_h
    }

    fn char_width(&self, c: char) -> (w: usize) {
        self.cell_w
    }
}

} // verus!
