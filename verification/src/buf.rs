//! An in-memory backend: a plain pixel buffer that can be encoded as a PPM
//! image, counting the draw calls it receives.
use vstd::prelude::*;
use crate::icon::{alpha_rows, blit_alpha_buf, icon_fits, icon_rows, Icon};
use crate::input::InputEvent;
use crate::pixbuf::{fill_block, fill_rows, repeat};
use crate::pixel::PixelFormat;
use crate::render::{Backend, Renderer};

verus! {

/// A backend that draws into a `width * height` pixel buffer in memory.
pub struct BufBackend<P: PixelFormat> {
    pub width: usize,
    pub height: usize,
    pub pixels: Vec<P>,
    pub blit_count: usize,
    pub fill_rect_count: usize,
}

/// The ASCII decimal digits of `n`, most significant first.
pub open spec fn decimal(n: nat) -> Seq<u8>
    decreases n,
{
    if n < 10 {
        seq![(48 + n) as u8]
    } else {
        decimal(n / 10).push((48 + n % 10) as u8)
    }
}

/// The three 8-bit channels of each pixel, in order.
pub open spec fn rgb_bytes<P: PixelFormat>(px: Seq<P>) -> Seq<u8>
    decreases px.len(),
{
    if px.len() == 0 {
        Seq::empty()
    } else {
        let (r, g, b) = px.last().spec_to_rgb();
        rgb_bytes(px.drop_last()) + seq![r, g, b]
    }
}

/// A binary PPM (P6) image: the header `P6\n<w> <h>\n255\n`, then RGB bytes.
pub open spec fn ppm_bytes<P: PixelFormat>(w: nat, h: nat, px: Seq<P>) -> Seq<u8> {
    seq![80u8, 54u8, 10u8] + decimal(w) + seq![32u8] + decimal(h) + seq![10u8, 50u8, 53u8, 53u8, 10u8]
        + rgb_bytes(px)
}

/// Appends the decimal digits of `n` to `out`.
pub fn push_decimal(out: &mut Vec<u8>, n: usize)
    ensures
        final(out)@ == old(out)@ + decimal(n as nat),
    decreases n,
{
    if n >= 10 {
        push_decimal(out, n / 10);
    }
    out.push((48 + n % 10) as u8);
    assert(out@ =~= old(out)@ + decimal(n as nat));
}

/// The last row of the rectangle `(y, h)` that lies on a surface of `height` rows, plus one.
pub open spec fn clip_end(start: int, len: int, limit: int) -> int {
    if start + len < limit {
        start + len
    } else {
        limit
    }
}

impl<P: PixelFormat> BufBackend<P> {
    /// A `w x h` buffer of default pixels, with both counters at zero.
    pub fn new(w: usize, h: usize) -> (b: Self)
        requires
            w * h <= usize::MAX,
        ensures
            b.width == w,
            b.height == h,
            b.pixels@ == repeat(P::spec_default(), (w * h) as nat),
            b.blit_count == 0,
            b.fill_rect_count == 0,
    {
        let n = w * h;
        let mut pixels: Vec<P> = Vec::new();
        let mut i: usize = 0;
        while i < n
            invariant
                i <= n,
                pixels@ == repeat(P::spec_default(), i as nat),
            decreases n - i,
        {
            pixels.push(P::default_value());
            i = i + 1;
            assert(pixels@ =~= repeat(P::spec_default(), i as nat));
        }
        BufBackend { width: w, height: h, pixels, blit_count: 0, fill_rect_count: 0 }
    }

    /// Sets both draw-call counters back to zero.
    pub fn reset_counts(&mut self)
        ensures
            final(self).blit_count == 0,
            final(self).fill_rect_count == 0,
            final(self).width == old(self).width,
            final(self).height == old(self).height,
            final(self).pixels@ == old(self).pixels@,
    {
        self.blit_count = 0;
        self.fill_rect_count = 0;
    }

    /// Encodes the buffer as a binary PPM (P6) image.
    pub fn ppm(&self) -> (out: Vec<u8>)
        ensures
            out@ == ppm_bytes(self.width as nat, self.height as nat, self.pixels@),
    {
        let mut out: Vec<u8> = Vec::new();
        out.push(80u8);
        out.push(54u8);
        out.push(10u8);
        push_decimal(&mut out, self.width);
        out.push(32u8);
        push_decimal(&mut out, self.height);
        out.push(10u8);
        out.push(50u8);
        out.push(53u8);
        out.push(53u8);
        out.push(10u8);
        let ghost header = out@;
        assert(header =~= seq![80u8, 54u8, 10u8] + decimal(self.width as nat) + seq![32u8] + decimal(
            self.height as nat,
        ) + seq![10u8, 50u8, 53u8, 53u8, 10u8]);
        let mut i: usize = 0;
        while i < self.pixels.len()
            invariant
                i <= self.pixels@.len(),
                out@ == header + rgb_bytes(self.pixels@.take(i as int)),
            decreases self.pixels@.len() - i,
        {
            let (r, g, b) = self.pixels[i].to_rgb();
            out.push(r);
            out.push(g);
            out.push(b);
            proof {
                assert(self.pixels@.take(i + 1).drop_last() =~= self.pixels@.take(i as int));
                assert(out@ =~= header + rgb_bytes(self.pixels@.take(i + 1)));
            }
            i = i + 1;
        }
        assert(self.pixels@.take(i as int) =~= self.pixels@);
        out
    }
}

impl<P: PixelFormat, A: ?Sized + Renderer<P>> Backend<P, A> for BufBackend<P> {
    open spec fn fill_ok(&self, x: nat, y: nat, w: nat, h: nat) -> bool {
        let y_end = clip_end(y as int, h as int, self.height as int);
        let x_end = clip_end(x as int, w as int, self.width as int);
        &&& self.fill_rect_count < usize::MAX
        &&& y + h <= usize::MAX
        &&& y < y_end ==> {
            &&& x + w <= usize::MAX
            &&& x <= self.width
            &&& (y_end - 1) * self.width + x_end <= self.pixels@.len()
        }
    }

    open spec fn blit_ok(&self, atlas: &A, x: nat, y: nat, text: Seq<char>) -> bool {
        &&& self.blit_count < usize::MAX
        &&& atlas.can_blit(self.pixels@.len(), self.width as nat, x, y, text)
    }

    open spec fn blit_returns(&self, atlas: &A, x: nat, y: nat, text: Seq<char>, end: nat) -> bool {
        end == atlas.spec_blit(self.pixels@, self.width as nat, x, y, text).1
    }

    open spec fn blit_char_ok(&self, atlas: &A, x: nat, y: nat, c: char) -> bool {
        atlas.can_blit_char(self.pixels@.len(), self.width as nat, x, y, c)
    }

    open spec fn alpha_ok(&self, icon: Icon) -> bool {
        icon_fits(self.pixels@.len() as int, self.width as int, icon)
    }

    open spec fn surface(&self) -> Seq<P> {
        self.pixels@
    }

    open spec fn clears(&self, color: P, after: Seq<P>) -> bool {
        after == repeat(color, self.pixels@.len())
    }

    open spec fn fills(&self, x: nat, y: nat, w: nat, h: nat, color: P, after: Seq<P>) -> bool {
        after == fill_rows(
            self.pixels@,
            self.width as int,
            x as int,
            clip_end(x as int, w as int, self.width as int),
            y as int,
            if y < self.height {
                clip_end(y as int, h as int, self.height as int)
            } else {
                y as int
            },
            color,
        )
    }

    open spec fn blits(&self, atlas: &A, x: nat, y: nat, text: Seq<char>, after: Seq<P>, end: nat) -> bool {
        (after, end) == atlas.spec_blit(self.pixels@, self.width as nat, x, y, text)
    }

    open spec fn blits_char(&self, atlas: &A, x: nat, y: nat, c: char, after: Seq<P>, end: nat) -> bool {
        (after, end) == atlas.spec_blit_char(self.pixels@, self.width as nat, x, y, c)
    }

    open spec fn blends(&self, icon: Icon, fg: P, bg: P, after: Seq<P>) -> bool {
        after == alpha_rows(
            self.pixels@,
            self.width as int,
            icon,
            fg,
            bg,
            icon_rows(self.pixels@.len() as int, self.width as int, icon) as nat,
        )
    }

    /// A memory buffer has no input.
    open spec fn quiet(&self) -> bool {
        true
    }

    /// Fills every pixel with `color`.
    fn clear(&mut self, color: P)
        ensures
            final(self).pixels@ == repeat(color, old(self).pixels@.len()),
            final(self).width == old(self).width,
            final(self).height == old(self).height,
            final(self).blit_count == old(self).blit_count,
            final(self).fill_rect_count == old(self).fill_rect_count,
    {
        let n = self.pixels.len();
        let mut i: usize = 0;
        while i < n
            invariant
                n == self.pixels@.len() == old(self).pixels@.len(),
                i <= n,
                self.width == old(self).width,
                self.height == old(self).height,
                self.blit_count == old(self).blit_count,
                self.fill_rect_count == old(self).fill_rect_count,
                forall|j: int| 0 <= j < i ==> #[trigger] self.pixels@[j] == color,
            decreases n - i,
        {
            self.pixels.set(i, color);
            i = i + 1;
        }
        assert(self.pixels@ =~= repeat(color, old(self).pixels@.len()));
    }

    /// Fills the part of the rectangle that lies on the surface with `color`
    /// and counts the call.
    fn fill_rect(&mut self, x: usize, y: usize, w: usize, h: usize, color: P)
        ensures
            final(self).pixels@ == fill_rows(
                old(self).pixels@,
                old(self).width as int,
                x as int,
                clip_end(x as int, w as int, old(self).width as int),
                y as int,
                if y < old(self).height {
                    clip_end(y as int, h as int, old(self).height as int)
                } else {
                    y as int
                },
                color,
            ),
            final(self).fill_rect_count == old(self).fill_rect_count + 1,
            final(self).blit_count == old(self).blit_count,
            final(self).width == old(self).width,
            final(self).height == old(self).height,
    {
        self.fill_rect_count = self.fill_rect_count + 1;
        let y_end = if y + h < self.height {
            y + h
        } else {
            self.height
        };
        if y >= y_end {
            return ;
        }
        let end_col = if x + w < self.width {
            x + w
        } else {
            self.width
        };
        let width = self.width;
        fill_block(self.pixels.as_mut_slice(), width, x, end_col, y, y_end, color);
    }

    /// Draws `text` into the buffer and counts the call.
    fn blit(&mut self, atlas: &A, x: usize, y: usize, text: &str) -> (end: usize)
        ensures
            (final(self).pixels@, end as nat) == atlas.spec_blit(
                old(self).pixels@,
                old(self).width as nat,
                x as nat,
                y as nat,
                text@,
            ),
            final(self).blit_count == old(self).blit_count + 1,
            final(self).fill_rect_count == old(self).fill_rect_count,
            final(self).width == old(self).width,
            final(self).height == old(self).height,
    {
        self.blit_count = self.blit_count + 1;
        let width = self.width;
        atlas.blit(self.pixels.as_mut_slice(), width, x, y, text)
    }

    /// Draws one character into the buffer.
    fn blit_char(&mut self, atlas: &A, x: usize, y: usize, ch: char) -> (end: usize)
        ensures
            (final(self).pixels@, end as nat) == atlas.spec_blit_char(
                old(self).pixels@,
                old(self).width as nat,
                x as nat,
                y as nat,
                ch,
            ),
            final(self).width == old(self).width,
            final(self).height == old(self).height,
            final(self).blit_count == old(self).blit_count,
            final(self).fill_rect_count == old(self).fill_rect_count,
    {
        let width = self.width;
        atlas.blit_char(self.pixels.as_mut_slice(), width, x, y, ch)
    }

    /// Blends `icon` into the buffer.
    fn blit_alpha(&mut self, icon: &Icon, fg: P, bg: P)
        ensures
            final(self).pixels@ == alpha_rows(
                old(self).pixels@,
                old(self).width as int,
                *icon,
                fg,
                bg,
                icon_rows(old(self).pixels@.len() as int, old(self).width as int, *icon) as nat,
            ),
            final(self).width == old(self).width,
            final(self).height == old(self).height,
            final(self).blit_count == old(self).blit_count,
            final(self).fill_rect_count == old(self).fill_rect_count,
    {
        let width = self.width;
        blit_alpha_buf(self.pixels.as_mut_slice(), width, icon, fg, bg);
    }

    /// No input: always an empty list.
    fn poll_events(&mut self) -> (events: &[InputEvent]) {
        &[]
    }
}

} // verus!
