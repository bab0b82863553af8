//! The grid toolkit on a fixed 16-bit RGB565 pixel: glyph atlases that bake
//! their colours at construction, and a weighted row/column layout engine
//! that resolves a layout tree into positioned cells once, before the loop.
use vstd::prelude::*;
use crate::render::{lemma_sum_of_prefix_le, sum_of};

pub mod layout;
pub mod chars;
pub mod mono;
pub mod shapes;
pub mod tt;

verus! {

/// One RGB565 pixel.
pub type Pixel = u16;

/// A glyph atlas that draws text into a flat row-major pixel buffer.
///
/// Colours are composited when the atlas is built, so drawing is a sequence
/// of row copies.
pub trait Renderer {
    /// Height of one glyph row in pixels.
    spec fn spec_cell_height(&self) -> nat;

    /// Advance width of `c` in pixels.
    spec fn spec_char_width(&self, c: char) -> nat;

    /// Drawing `text` at `(x, y)` into a buffer of `len` pixels with `stride`
    /// pixels per row stays inside the buffer (and inside `usize`).
    spec fn can_draw(&self, len: nat, stride: nat, x: nat, y: nat, text: Seq<char>) -> bool;

    /// The buffer after `text` was drawn with the top-left of its first glyph at `(x, y)`.
    spec fn spec_draw(&self, fb: Seq<Pixel>, stride: nat, x: nat, y: nat, text: Seq<char>) -> Seq<
        Pixel,
    >;

    /// Blits `text` into `fb` with the top-left of the first glyph at `(x, y)`;
    /// `stride` is the number of pixels per row.
    fn draw(&self, fb: &mut [Pixel], stride: usize, x: usize, y: usize, text: &str)
        requires
            self.can_draw(old(fb)@.len(), stride as nat, x as nat, y as nat, text@),
        ensures
            final(fb)@ == self.spec_draw(old(fb)@, stride as nat, x as nat, y as nat, text@),
            final(fb)@.len() == old(fb)@.len(),
    ;

    /// Height of one glyph row in pixels.
    fn cell_height(&self) -> (h: usize)
        ensures
            h == self.spec_cell_height(),
    ;

    /// Advance width of a single character.
    fn char_width(&self, c: char) -> (w: usize)
        ensures
            w == self.spec_char_width(c),
    ;

    /// What an atlas that measures text its own way needs, beyond the sum of
    /// the character widths fitting in `usize`, to measure `text`.
    open spec fn text_width_ok(&self, text: Seq<char>) -> bool {
        true
    }

    /// Width of a rendered string: by default the sum of the advance widths of its characters.
    fn text_width(&self, text: &str) -> (w: usize)
        requires
            sum_of(text@, |c: char| self.spec_char_width(c)) <= usize::MAX,
            self.text_width_ok(text@),
        default_ensures
            w == sum_of(text@, |c: char| self.spec_char_width(c)),
    {
        let n = text.unicode_len();
        let mut acc: usize = 0;
        let mut i: usize = 0;
        while i < n
            invariant
                i <= n == text@.len(),
                sum_of(text@, |c: char| self.spec_char_width(c)) <= usize::MAX,
                acc == sum_of(text@.take(i as int), |c: char| self.spec_char_width(c)),
            decreases n - i,
        {
            let c = text.get_char(i);
            proof {
                assert(text@.take(i + 1).drop_last() =~= text@.take(i as int));
                lemma_sum_of_prefix_le(text@, |c: char| self.spec_char_width(c), i + 1);
            }
            acc = acc + self.char_width(c);
            i = i + 1;
        }
        assert(text@.take(n as int) =~= text@);
        acc
    }
}

/// A display surface that can fill rectangles.
pub trait Backend {
    /// Width of the display surface in pixels.
    fn width(&self) -> usize;

    /// Height of the display surface in pixels.
    fn height(&self) -> usize;

    /// Fills the entire surface with `color`.
    fn clear(&mut self, color: Pixel);

    /// The pixels of the surface, row by row, as far as the backend shows
    /// them; `fills` speaks of it.
    open spec fn surface(&self) -> Seq<Pixel> {
        Seq::empty()
    }

    /// `after` is what filling the rectangle with `color` turns the surface
    /// `before` into; a backend that does not say otherwise promises nothing.
    open spec fn fills(
        &self,
        before: Seq<Pixel>,
        x: nat,
        y: nat,
        w: nat,
        h: nat,
        color: Pixel,
        after: Seq<Pixel>,
    ) -> bool {
        true
    }

    /// Fills an axis-aligned rectangle with `color`. What a fill does is the
    /// same before and after it.
    fn fill_rect(&mut self, x: usize, y: usize, w: usize, h: usize, color: Pixel)
        ensures
            old(self).fills(
                old(self).surface(),
                x as nat,
                y as nat,
                w as nat,
                h as nat,
                color,
                final(self).surface(),
            ),
            forall|b: Seq<Pixel>, x1: nat, y1: nat, w1: nat, h1: nat, c: Pixel, a: Seq<Pixel>|
                #[trigger] final(self).fills(b, x1, y1, w1, h1, c, a) == old(self).fills(
                    b,
                    x1,
                    y1,
                    w1,
                    h1,
                    c,
                    a,
                ),
    ;

    /// Draws a hollow rectangle of `thickness` pixels as four `fill_rect`
    /// calls: top, bottom, left and right edge.
    fn draw_border(
        &mut self,
        x: usize,
        y: usize,
        w: usize,
        h: usize,
        thickness: usize,
        color: Pixel,
    )
        requires
            thickness <= h,
            thickness <= w,
            x + w <= usize::MAX,
            y + h <= usize::MAX,
        ensures
            exists|p1: Seq<Pixel>, p2: Seq<Pixel>, p3: Seq<Pixel>|
                #![trigger old(self).fills(p1, x as nat, (y + h - thickness) as nat, w as nat, thickness as nat, color, p2), old(self).fills(p2, x as nat, y as nat, thickness as nat, h as nat, color, p3)]
                {
                    &&& old(self).fills(
                        old(self).surface(),
                        x as nat,
                        y as nat,
                        w as nat,
                        thickness as nat,
                        color,
                        p1,
                    )
                    &&& old(self).fills(
                        p1,
                        x as nat,
                        (y + h - thickness) as nat,
                        w as nat,
                        thickness as nat,
                        color,
                        p2,
                    )
                    &&& old(self).fills(p2, x as nat, y as nat, thickness as nat, h as nat, color, p3)
                    &&& old(self).fills(
                        p3,
                        (x + w - thickness) as nat,
                        y as nat,
                        thickness as nat,
                        h as nat,
                        color,
                        final(self).surface(),
                    )
                },
    {
        self.fill_rect(x, y, w, thickness, color);
        let ghost p1 = self.surface();
        self.fill_rect(x, y + h - thickness, w, thickness, color);
        let ghost p2 = self.surface();
        self.fill_rect(x, y, thickness, h, color);
        let ghost p3 = self.surface();
        self.fill_rect(x + w - thickness, y, thickness, h, color);
        assert(old(self).fills(
            p1,
            x as nat,
            (y + h - thickness) as nat,
            w as nat,
            thickness as nat,
            color,
            p2,
        ));
        assert(old(self).fills(p2, x as nat, y as nat, thickness as nat, h as nat, color, p3));
        assert(old(self).fills(
            p3,
            (x + w - thickness) as nat,
            y as nat,
            thickness as nat,
            h as nat,
            color,
            self.surface(),
        ));
    }

    /// Returns `true` when a quit event is pending; `false` by default.
    fn poll_quit(&mut self) -> (quit: bool)
        default_ensures
            !quit,
    {
        false
    }
}

} // verus!
