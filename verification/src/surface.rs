//! In-memory drawing surfaces behind the display backends.
//!
//! [`ShadowBuffer`] is the shadow copy that a framebuffer or SDL backend draws
//! into: every drawing call widens a dirty rectangle, and presenting a frame
//! takes that rectangle (and resets it) so that only the changed rows are
//! copied out. [`WebBuffer`] is the browser backend's surface: one flag says
//! whether anything was drawn since the last upload, and the input events
//! reported by the page are decoded into a list.
use vstd::prelude::*;
use crate::icon::{alpha_rows, blit_alpha_buf, icon_fits, icon_rows, Icon};
use crate::input::{decode_web_event, spec_decode_web_event, InputEvent};
use crate::pixbuf::{fill_block, fill_rows, filled, in_block, lemma_fill_rows_only, repeat, slice_range};
use crate::pixel::PixelFormat;
use crate::render::{Backend, Renderer};

verus! {

/// A rectangle of changed pixels: columns `x0 .. x1`, rows `y0 .. y1`.
#[derive(Clone, Copy, PartialEq, Eq, Structural, Debug)]
pub struct DirtyRect {
    pub x0: usize,
    pub y0: usize,
    pub x1: usize,
    pub y1: usize,
}

/// The rectangle that covers nothing on a `width` x `height` surface: any
/// marked rectangle replaces it.
pub open spec fn clean(width: usize, height: usize) -> DirtyRect {
    DirtyRect { x0: width, y0: height, x1: 0, y1: 0 }
}

/// `d` widened to cover columns `x .. x_end` and rows `y .. y_end`.
pub open spec fn widen(d: DirtyRect, x: usize, y: usize, x_end: usize, y_end: usize) -> DirtyRect {
    DirtyRect {
        x0: if x < d.x0 {
            x
        } else {
            d.x0
        },
        y0: if y < d.y0 {
            y
        } else {
            d.y0
        },
        x1: if x_end > d.x1 {
            x_end
        } else {
            d.x1
        },
        y1: if y_end > d.y1 {
            y_end
        } else {
            d.y1
        },
    }
}

/// The part of `d` that lies on a `width` x `height` surface, when not empty.
pub open spec fn visible(d: DirtyRect, width: usize, height: usize) -> Option<DirtyRect> {
    let x1 = if d.x1 < width {
        d.x1
    } else {
        width
    };
    let y1 = if d.y1 < height {
        d.y1
    } else {
        height
    };
    if d.x0 >= x1 || d.y0 >= y1 {
        None
    } else {
        Some(DirtyRect { x0: d.x0, y0: d.y0, x1, y1 })
    }
}

/// The end of a span of `len` from `start`, clipped at `limit`.
pub open spec fn clip(start: int, len: int, limit: int) -> int {
    if start + len < limit {
        start + len
    } else {
        limit
    }
}

/// Index `i` of a buffer with rows `stride` apart lies in rectangle `d`.
pub open spec fn in_dirty(i: int, stride: int, d: DirtyRect) -> bool {
    in_block(i, stride, d.x0 as int, d.x1 as int, d.y0 as int, d.y1 as int)
}

/// Widening the dirty rectangle keeps every pixel it covered.
pub proof fn lemma_widen_covers(i: int, stride: int, d: DirtyRect, x: usize, y: usize, x_end: usize, y_end: usize)
    requires
        in_dirty(i, stride, d),
    ensures
        in_dirty(i, stride, widen(d, x, y, x_end, y_end)),
{
    let w = widen(d, x, y, x_end, y_end);
    let r = choose|r: int| d.y0 <= r < d.y1 && #[trigger] (r * stride) + d.x0 <= i < r * stride + d.x1;
    assert(w.y0 <= r < w.y1 && (r * stride) + w.x0 <= i < r * stride + w.x1);
}

/// A fill changes only pixels inside the dirty rectangle it leaves behind:
/// presenting that rectangle presents every change.
pub proof fn lemma_fill_dirty<P>(
    px: Seq<P>,
    stride: int,
    d: DirtyRect,
    width: usize,
    height: usize,
    x: usize,
    y: usize,
    w: usize,
    h: usize,
    color: P,
)
    ensures
        ({
            let x_end = clip(x as int, w as int, width as int);
            let y_end = clip(y as int, h as int, height as int);
            x < x_end && y < y_end ==> forall|i: int|
                0 <= i < px.len() && #[trigger] fill_rows(px, stride, x as int, x_end, y as int, y_end, color)[i]
                    != px[i] ==> in_dirty(i, stride, widen(d, x, y, x_end as usize, y_end as usize))
        }),
{
    let x_end = clip(x as int, w as int, width as int);
    let y_end = clip(y as int, h as int, height as int);
    if x < x_end && y < y_end {
        lemma_fill_rows_only(px, stride, x as int, x_end, y as int, y_end, color);
        let wd = widen(d, x, y, x_end as usize, y_end as usize);
        assert forall|i: int|
            0 <= i < px.len() && #[trigger] fill_rows(px, stride, x as int, x_end, y as int, y_end, color)[i]
                != px[i] implies in_dirty(i, stride, wd) by {
            let r = choose|r: int| y <= r < y_end && #[trigger] (r * stride) + x <= i < r * stride + x_end;
            assert(wd.y0 <= r < wd.y1 && (r * stride) + wd.x0 <= i < r * stride + wd.x1);
        }
    }
}

/// A shadow pixel buffer with dirty-rectangle tracking. Rows are `stride`
/// pixels apart; 64 spare rows below the visible `height` absorb glyphs
/// drawn near the bottom edge.
pub struct ShadowBuffer<P> {
    stride: usize,
    width: usize,
    height: usize,
    pixels: Vec<P>,
    dirty: DirtyRect,
    scratch: Vec<P>,
}

impl<P: PixelFormat> ShadowBuffer<P> {
    pub closed spec fn spec_stride(&self) -> nat {
        self.stride as nat
    }

    pub closed spec fn spec_width(&self) -> nat {
        self.width as nat
    }

    pub closed spec fn spec_height(&self) -> nat {
        self.height as nat
    }

    /// The shadow pixels, row after row.
    pub closed spec fn spec_pixels(&self) -> Seq<P> {
        self.pixels@
    }

    /// The rectangle changed since the last frame was taken.
    pub closed spec fn spec_dirty(&self) -> DirtyRect {
        self.dirty
    }

    /// Rows are at least as long as the visible width, and the buffer holds
    /// every visible row.
    pub closed spec fn wf(&self) -> bool {
        self.height > 0 ==> (self.height - 1) * self.stride + self.width <= self.pixels@.len()
    }

    /// A buffer of `stride * (height + 64)` default pixels, nothing dirty.
    pub fn new(stride: usize, width: usize, height: usize) -> (s: Self)
        requires
            height > 0 ==> (height - 1) * stride + width <= stride * (height + 64),
            height + 64 <= usize::MAX,
            stride * (height + 64) <= usize::MAX,
        ensures
            s.wf(),
            s.spec_stride() == stride,
            s.spec_width() == width,
            s.spec_height() == height,
            s.spec_pixels() == repeat(P::spec_default(), (stride * (height + 64)) as nat),
            s.spec_dirty() == clean(width, height),
    {
        let pixels = filled(P::default_value(), stride * (height + 64));
        ShadowBuffer {
            stride,
            width,
            height,
            pixels,
            dirty: DirtyRect { x0: width, y0: height, x1: 0, y1: 0 },
            scratch: Vec::new(),
        }
    }

    pub fn stride(&self) -> (r: usize)
        ensures
            r == self.spec_stride(),
    {
        self.stride
    }

    pub fn width(&self) -> (r: usize)
        ensures
            r == self.spec_width(),
    {
        self.width
    }

    pub fn height(&self) -> (r: usize)
        ensures
            r == self.spec_height(),
    {
        self.height
    }

    /// The shadow pixels.
    pub fn pixels(&self) -> (r: &[P])
        ensures
            r@ == self.spec_pixels(),
    {
        self.pixels.as_slice()
    }

    /// Rows `y0 .. y1` of the shadow, whole rows of `stride` pixels, in order.
    pub fn rows(&self, y0: usize, y1: usize) -> (r: &[P])
        requires
            y0 <= y1,
            y1 * self.spec_stride() <= self.spec_pixels().len(),
        ensures
            r@ == self.spec_pixels().subrange(y0 * self.spec_stride(), y1 * self.spec_stride()),
    {
        let _len = self.pixels.len();
        assert(y0 * self.stride <= y1 * self.stride) by (nonlinear_arith)
            requires
                y0 <= y1,
        ;
        slice_range(self.pixels.as_slice(), y0 * self.stride, y1 * self.stride)
    }

    /// Widens the dirty rectangle to cover `x .. x_end` by `y .. y_end`.
    pub fn mark_dirty(&mut self, x: usize, y: usize, x_end: usize, y_end: usize)
        ensures
            final(self).spec_dirty() == widen(old(self).spec_dirty(), x, y, x_end, y_end),
            final(self).spec_pixels() == old(self).spec_pixels(),
            final(self).spec_stride() == old(self).spec_stride(),
            final(self).spec_width() == old(self).spec_width(),
            final(self).spec_height() == old(self).spec_height(),
            old(self).wf() ==> final(self).wf(),
    {
        if x < self.dirty.x0 {
            self.dirty.x0 = x;
        }
        if y < self.dirty.y0 {
            self.dirty.y0 = y;
        }
        if x_end > self.dirty.x1 {
            self.dirty.x1 = x_end;
        }
        if y_end > self.dirty.y1 {
            self.dirty.y1 = y_end;
        }
    }

    /// Takes the visible part of the dirty rectangle for presenting and
    /// marks everything clean; `None`, and nothing reset, when no visible
    /// pixel changed.
    pub fn take_dirty(&mut self) -> (r: Option<DirtyRect>)
        ensures
            r == visible(old(self).spec_dirty(), old(self).spec_width() as usize, old(self).spec_height() as usize),
            final(self).spec_dirty() == if r is Some {
                clean(old(self).spec_width() as usize, old(self).spec_height() as usize)
            } else {
                old(self).spec_dirty()
            },
            final(self).spec_pixels() == old(self).spec_pixels(),
            final(self).spec_stride() == old(self).spec_stride(),
            final(self).spec_width() == old(self).spec_width(),
            final(self).spec_height() == old(self).spec_height(),
            old(self).wf() ==> final(self).wf(),
    {
        let x0 = self.dirty.x0;
        let y0 = self.dirty.y0;
        let x1 = if self.dirty.x1 < self.width {
            self.dirty.x1
        } else {
            self.width
        };
        let y1 = if self.dirty.y1 < self.height {
            self.dirty.y1
        } else {
            self.height
        };
        if x0 >= x1 || y0 >= y1 {
            return None;
        }
        self.dirty = DirtyRect { x0: self.width, y0: self.height, x1: 0, y1: 0 };
        Some(DirtyRect { x0, y0, x1, y1 })
    }

    /// Copies the rows of `r` into the scratch buffer, one after the other,
    /// and returns them: the pixels of a rectangle that does not span whole
    /// rows, gathered for one upload.
    pub fn gather(&mut self, r: DirtyRect) -> (out: &[P])
        requires
            old(self).wf(),
            r.x0 <= r.x1 <= old(self).spec_width(),
            r.y0 <= r.y1 <= old(self).spec_height(),
        ensures
            out@ == rect_pixels(old(self).spec_pixels(), old(self).spec_stride() as int, r),
            final(self).spec_pixels() == old(self).spec_pixels(),
            final(self).spec_dirty() == old(self).spec_dirty(),
            final(self).spec_stride() == old(self).spec_stride(),
            final(self).spec_width() == old(self).spec_width(),
            final(self).spec_height() == old(self).spec_height(),
            final(self).wf(),
    {
        let w = r.x1 - r.x0;
        let ghost px = self.pixels@;
        let ghost stride = self.stride as int;
        let _len = self.pixels.len();
        let mut out: Vec<P> = Vec::new();
        let mut row = r.y0;
        while row < r.y1
            invariant
                r.y0 <= row <= r.y1 <= self.height,
                r.x0 <= r.x1 <= self.width,
                w == r.x1 - r.x0,
                self.wf(),
                self.pixels@.len() <= usize::MAX,
                px == self.pixels@,
                stride == self.stride,
                out@ == rect_pixels(px, stride, DirtyRect { x0: r.x0, y0: r.y0, x1: r.x1, y1: row }),
            decreases r.y1 - row,
        {
            assert(row * self.stride + self.width <= (self.height - 1) * self.stride + self.width) by (nonlinear_arith)
                requires
                    row < self.height,
            ;
            let base = row * self.stride + r.x0;
            let mut k: usize = 0;
            while k < w
                invariant
                    k <= w == r.x1 - r.x0,
                    r.y0 <= row < r.y1 <= self.height,
                    r.x0 <= r.x1 <= self.width,
                    base == row * self.stride + r.x0,
                    row * self.stride + self.width <= self.pixels@.len() <= usize::MAX,
                    px == self.pixels@,
                    stride == self.stride,
                    out@ == rect_pixels(px, stride, DirtyRect { x0: r.x0, y0: r.y0, x1: r.x1, y1: row }) + px.subrange(
                        base as int,
                        base + k,
                    ),
                decreases w - k,
            {
                out.push(self.pixels[base + k]);
                k = k + 1;
                assert(px.subrange(base as int, base + k) =~= px.subrange(base as int, base + k - 1).push(px[base + k - 1]));
            }
            proof {
                lemma_rect_pixels_row(px, stride, r.x0 as int, r.x1 as int, r.y0 as int, row as int);
            }
            row = row + 1;
        }
        self.scratch = out;
        self.scratch.as_slice()
    }
}

/// The distance in pixels between the rows of a framebuffer whose rows are
/// `line_length` bytes apart, when its depth `bits_per_pixel` is that of a
/// pixel of `pixel_bytes` bytes; `None` when the depths differ.
pub fn fb_stride(bits_per_pixel: u32, pixel_bytes: usize, line_length: u32) -> (r: Option<usize>)
    requires
        pixel_bytes * 8 <= usize::MAX,
        pixel_bytes > 0 || bits_per_pixel != 0,
    ensures
        r == if bits_per_pixel == pixel_bytes * 8 {
            Some((line_length as nat / pixel_bytes as nat) as usize)
        } else {
            None
        },
{
    if bits_per_pixel as usize != pixel_bytes * 8 {
        return None;
    }
    Some(line_length as usize / pixel_bytes)
}

/// The pixels of rectangle `r`, row after row, of a buffer with rows
/// `stride` apart.
pub open spec fn rect_pixels<P>(px: Seq<P>, stride: int, r: DirtyRect) -> Seq<P>
    decreases r.y1 - r.y0,
{
    if r.y1 <= r.y0 {
        Seq::empty()
    } else {
        let last = r.y1 - 1;
        rect_pixels(px, stride, DirtyRect { x0: r.x0, y0: r.y0, x1: r.x1, y1: last as usize }) + px.subrange(
            last * stride + r.x0,
            last * stride + r.x1,
        )
    }
}

proof fn lemma_rect_pixels_row<P>(px: Seq<P>, stride: int, x0: int, x1: int, y0: int, row: int)
    requires
        0 <= y0 <= row,
        row + 1 <= usize::MAX,
        0 <= x0 <= x1 <= usize::MAX,
    ensures
        rect_pixels(px, stride, DirtyRect { x0: x0 as usize, y0: y0 as usize, x1: x1 as usize, y1: (row + 1) as usize })
            == rect_pixels(px, stride, DirtyRect { x0: x0 as usize, y0: y0 as usize, x1: x1 as usize, y1: row as usize })
            + px.subrange(row * stride + x0, row * stride + x1),
{
}

impl<P: PixelFormat, A: ?Sized + Renderer<P>> Backend<P, A> for ShadowBuffer<P> {
    closed spec fn fill_ok(&self, x: nat, y: nat, w: nat, h: nat) -> bool {
        &&& self.wf()
        &&& x + w <= usize::MAX
        &&& y + h <= usize::MAX
    }

    closed spec fn blit_ok(&self, atlas: &A, x: nat, y: nat, text: Seq<char>) -> bool {
        &&& atlas.can_blit(self.pixels@.len(), self.stride as nat, x, y, text)
        &&& y + atlas.spec_cell_height() <= usize::MAX
    }

    closed spec fn blit_returns(&self, atlas: &A, x: nat, y: nat, text: Seq<char>, end: nat) -> bool {
        end == atlas.spec_blit(self.pixels@, self.stride as nat, x, y, text).1
    }

    closed spec fn blit_char_ok(&self, atlas: &A, x: nat, y: nat, c: char) -> bool {
        &&& atlas.can_blit_char(self.pixels@.len(), self.stride as nat, x, y, c)
        &&& y + atlas.spec_cell_height() <= usize::MAX
    }

    closed spec fn alpha_ok(&self, icon: Icon) -> bool {
        &&& icon_fits(self.pixels@.len() as int, self.stride as int, icon)
        &&& icon.x + icon.w <= usize::MAX
        &&& icon.y + icon.h <= usize::MAX
    }

    closed spec fn surface(&self) -> Seq<P> {
        self.pixels@
    }

    closed spec fn clears(&self, color: P, after: Seq<P>) -> bool {
        after == repeat(color, self.pixels@.len())
    }

    closed spec fn fills(&self, x: nat, y: nat, w: nat, h: nat, color: P, after: Seq<P>) -> bool {
        let x_end = clip(x as int, w as int, self.width as int);
        let y_end = clip(y as int, h as int, self.height as int);
        if x >= x_end || y >= y_end {
            after == self.pixels@
        } else {
            after == fill_rows(self.pixels@, self.stride as int, x as int, x_end, y as int, y_end, color)
        }
    }

    closed spec fn blits(&self, atlas: &A, x: nat, y: nat, text: Seq<char>, after: Seq<P>, end: nat) -> bool {
        (after, end) == atlas.spec_blit(self.pixels@, self.stride as nat, x, y, text)
    }

    closed spec fn blits_char(&self, atlas: &A, x: nat, y: nat, c: char, after: Seq<P>, end: nat) -> bool {
        (after, end) == atlas.spec_blit_char(self.pixels@, self.stride as nat, x, y, c)
    }

    closed spec fn blends(&self, icon: Icon, fg: P, bg: P, after: Seq<P>) -> bool {
        after == alpha_rows(
            self.pixels@,
            self.stride as int,
            icon,
            fg,
            bg,
            icon_rows(self.pixels@.len() as int, self.stride as int, icon) as nat,
        )
    }

    /// Fills every pixel (the spare rows too) and marks the whole surface dirty.
    fn clear(&mut self, color: P)
        ensures
            final(self).spec_pixels() == repeat(color, old(self).spec_pixels().len()),
            final(self).spec_dirty() == (DirtyRect {
                x0: 0,
                y0: 0,
                x1: old(self).spec_width() as usize,
                y1: old(self).spec_height() as usize,
            }),
            final(self).spec_stride() == old(self).spec_stride(),
            final(self).spec_width() == old(self).spec_width(),
            final(self).spec_height() == old(self).spec_height(),
            old(self).wf() ==> final(self).wf(),
    {
        let n = self.pixels.len();
        let mut i: usize = 0;
        while i < n
            invariant
                n == self.pixels@.len() == old(self).pixels@.len(),
                i <= n,
                self.stride == old(self).stride,
                self.width == old(self).width,
                self.height == old(self).height,
                self.dirty == old(self).dirty,
                forall|j: int| 0 <= j < i ==> #[trigger] self.pixels@[j] == color,
            decreases n - i,
        {
            self.pixels.set(i, color);
            i = i + 1;
        }
        assert(self.pixels@ =~= repeat(color, old(self).pixels@.len()));
        self.dirty = DirtyRect { x0: 0, y0: 0, x1: self.width, y1: self.height };
    }

    /// Fills the part of the rectangle that lies on the visible surface and
    /// marks it dirty; nothing happens when that part is empty.
    fn fill_rect(&mut self, x: usize, y: usize, w: usize, h: usize, color: P)
        ensures
            ({
                let x_end = clip(x as int, w as int, old(self).spec_width() as int);
                let y_end = clip(y as int, h as int, old(self).spec_height() as int);
                if x >= x_end || y >= y_end {
                    final(self).spec_pixels() == old(self).spec_pixels() && final(self).spec_dirty() == old(
                        self,
                    ).spec_dirty()
                } else {
                    &&& final(self).spec_pixels() == fill_rows(
                        old(self).spec_pixels(),
                        old(self).spec_stride() as int,
                        x as int,
                        x_end,
                        y as int,
                        y_end,
                        color,
                    )
                    &&& final(self).spec_dirty() == widen(
                        old(self).spec_dirty(),
                        x,
                        y,
                        x_end as usize,
                        y_end as usize,
                    )
                }
            }),
            final(self).spec_stride() == old(self).spec_stride(),
            final(self).spec_width() == old(self).spec_width(),
            final(self).spec_height() == old(self).spec_height(),
            final(self).wf(),
    {
        let x_end = if x + w < self.width {
            x + w
        } else {
            self.width
        };
        let y_end = if y + h < self.height {
            y + h
        } else {
            self.height
        };
        if x >= x_end || y >= y_end {
            return ;
        }
        assert((y_end - 1) * self.stride + x_end <= (self.height - 1) * self.stride + self.width) by (nonlinear_arith)
            requires
                y_end <= self.height,
                x_end <= self.width,
                y_end >= 1,
        ;
        let stride = self.stride;
        fill_block(self.pixels.as_mut_slice(), stride, x, x_end, y, y_end, color);
        proof {
            crate::pixbuf::lemma_fill_rows_len(old(self).pixels@, stride as int, x as int, x_end as int, y as int, y_end as int, color);
        }
        self.mark_dirty(x, y, x_end, y_end);
    }

    /// Draws `text` into the shadow and marks the drawn cell row dirty.
    fn blit(&mut self, atlas: &A, x: usize, y: usize, text: &str) -> (end: usize)
        ensures
            (final(self).spec_pixels(), end as nat) == atlas.spec_blit(
                old(self).spec_pixels(),
                old(self).spec_stride(),
                x as nat,
                y as nat,
                text@,
            ),
            final(self).spec_dirty() == widen(
                old(self).spec_dirty(),
                x,
                y,
                end,
                (y + atlas.spec_cell_height()) as usize,
            ),
            final(self).spec_stride() == old(self).spec_stride(),
            final(self).spec_width() == old(self).spec_width(),
            final(self).spec_height() == old(self).spec_height(),
    {
        let stride = self.stride;
        let end = atlas.blit(self.pixels.as_mut_slice(), stride, x, y, text);
        let h = atlas.cell_height();
        self.mark_dirty(x, y, end, y + h);
        end
    }

    /// Draws one character into the shadow and marks its cell dirty.
    fn blit_char(&mut self, atlas: &A, x: usize, y: usize, ch: char) -> (end: usize)
        ensures
            (final(self).spec_pixels(), end as nat) == atlas.spec_blit_char(
                old(self).spec_pixels(),
                old(self).spec_stride(),
                x as nat,
                y as nat,
                ch,
            ),
            final(self).spec_dirty() == widen(
                old(self).spec_dirty(),
                x,
                y,
                end,
                (y + atlas.spec_cell_height()) as usize,
            ),
            final(self).spec_stride() == old(self).spec_stride(),
            final(self).spec_width() == old(self).spec_width(),
            final(self).spec_height() == old(self).spec_height(),
    {
        let stride = self.stride;
        let end = atlas.blit_char(self.pixels.as_mut_slice(), stride, x, y, ch);
        let h = atlas.cell_height();
        self.mark_dirty(x, y, end, y + h);
        end
    }

    /// Blends `icon` into the shadow and marks its box dirty.
    fn blit_alpha(&mut self, icon: &Icon, fg: P, bg: P)
        ensures
            final(self).spec_pixels() == alpha_rows(
                old(self).spec_pixels(),
                old(self).spec_stride() as int,
                *icon,
                fg,
                bg,
                icon_rows(old(self).spec_pixels().len() as int, old(self).spec_stride() as int, *icon) as nat,
            ),
            final(self).spec_dirty() == widen(
                old(self).spec_dirty(),
                icon.x,
                icon.y,
                (icon.x + icon.w) as usize,
                (icon.y + icon.h) as usize,
            ),
            final(self).spec_stride() == old(self).spec_stride(),
            final(self).spec_width() == old(self).spec_width(),
            final(self).spec_height() == old(self).spec_height(),
    {
        let stride = self.stride;
        blit_alpha_buf(self.pixels.as_mut_slice(), stride, icon, fg, bg);
        self.mark_dirty(icon.x, icon.y, icon.x + icon.w, icon.y + icon.h);
    }
}


/// The browser backend's surface: `width` x `height` pixels (plus 64 spare
/// rows), a flag that says whether anything was drawn since the last upload,
/// and the input events decoded since the last poll.
pub struct WebBuffer<P> {
    pixels: Vec<P>,
    width: usize,
    height: usize,
    dirty: bool,
    events: Vec<InputEvent>,
}

impl<P: PixelFormat> WebBuffer<P> {
    pub closed spec fn spec_pixels(&self) -> Seq<P> {
        self.pixels@
    }

    pub closed spec fn spec_width(&self) -> nat {
        self.width as nat
    }

    pub closed spec fn spec_height(&self) -> nat {
        self.height as nat
    }

    /// Something was drawn since the last upload.
    pub closed spec fn is_dirty(&self) -> bool {
        self.dirty
    }

    /// The events decoded since the last poll, in order.
    pub closed spec fn spec_events(&self) -> Seq<InputEvent> {
        self.events@
    }

    /// The buffer holds every visible row.
    pub closed spec fn wf(&self) -> bool {
        self.width * self.height <= self.pixels@.len()
    }

    /// A `width` x `height` surface of default pixels with 64 spare rows,
    /// clean, with no events.
    pub fn new(width: usize, height: usize) -> (s: Self)
        requires
            height + 64 <= usize::MAX,
            width * (height + 64) <= usize::MAX,
        ensures
            s.wf(),
            s.spec_width() == width,
            s.spec_height() == height,
            s.spec_pixels() == repeat(P::spec_default(), (width * (height + 64)) as nat),
            !s.is_dirty(),
            s.spec_events().len() == 0,
    {
        assert(width * height <= width * (height + 64)) by (nonlinear_arith);
        WebBuffer {
            pixels: filled(P::default_value(), width * (height + 64)),
            width,
            height,
            dirty: false,
            events: Vec::new(),
        }
    }

    pub fn width(&self) -> (r: usize)
        ensures
            r == self.spec_width(),
    {
        self.width
    }

    pub fn height(&self) -> (r: usize)
        ensures
            r == self.spec_height(),
    {
        self.height
    }

    /// The pixels.
    pub fn pixels(&self) -> (r: &[P])
        ensures
            r@ == self.spec_pixels(),
    {
        self.pixels.as_slice()
    }

    /// Whether the frame must be uploaded: `true` once after anything was
    /// drawn, which also marks the surface clean.
    pub fn take_frame(&mut self) -> (upload: bool)
        ensures
            upload == old(self).is_dirty(),
            !final(self).is_dirty(),
            final(self).spec_pixels() == old(self).spec_pixels(),
            final(self).spec_width() == old(self).spec_width(),
            final(self).spec_height() == old(self).spec_height(),
            final(self).spec_events() == old(self).spec_events(),
            old(self).wf() ==> final(self).wf(),
    {
        if !self.dirty {
            return false;
        }
        self.dirty = false;
        true
    }

    /// The events decoded since the last poll.
    pub fn events(&self) -> (r: &[InputEvent])
        ensures
            r@ == self.spec_events(),
    {
        self.events.as_slice()
    }

    /// Forgets the events of the previous poll.
    pub fn start_events(&mut self)
        ensures
            final(self).spec_events().len() == 0,
            final(self).spec_pixels() == old(self).spec_pixels(),
            final(self).is_dirty() == old(self).is_dirty(),
            final(self).spec_width() == old(self).spec_width(),
            final(self).spec_height() == old(self).spec_height(),
            old(self).wf() ==> final(self).wf(),
    {
        self.events.clear();
    }

    /// Records the page event of type `t` at `(x, y)`: press, release or
    /// move; other types are ignored.
    pub fn push_event(&mut self, t: i32, x: i32, y: i32)
        ensures
            final(self).spec_events() == match spec_decode_web_event(t, x, y) {
                Some(ev) => old(self).spec_events().push(ev),
                None => old(self).spec_events(),
            },
            final(self).spec_pixels() == old(self).spec_pixels(),
            final(self).is_dirty() == old(self).is_dirty(),
            final(self).spec_width() == old(self).spec_width(),
            final(self).spec_height() == old(self).spec_height(),
            old(self).wf() ==> final(self).wf(),
    {
        match decode_web_event(t, x, y) {
            Some(ev) => self.events.push(ev),
            None => {},
        }
    }
}

impl<P: PixelFormat, A: ?Sized + Renderer<P>> Backend<P, A> for WebBuffer<P> {
    closed spec fn fill_ok(&self, x: nat, y: nat, w: nat, h: nat) -> bool {
        &&& self.wf()
        &&& x + w <= usize::MAX
        &&& y + h <= usize::MAX
    }

    closed spec fn blit_ok(&self, atlas: &A, x: nat, y: nat, text: Seq<char>) -> bool {
        atlas.can_blit(self.pixels@.len(), self.width as nat, x, y, text)
    }

    closed spec fn blit_returns(&self, atlas: &A, x: nat, y: nat, text: Seq<char>, end: nat) -> bool {
        end == atlas.spec_blit(self.pixels@, self.width as nat, x, y, text).1
    }

    closed spec fn blit_char_ok(&self, atlas: &A, x: nat, y: nat, c: char) -> bool {
        atlas.can_blit_char(self.pixels@.len(), self.width as nat, x, y, c)
    }

    closed spec fn alpha_ok(&self, icon: Icon) -> bool {
        icon_fits(self.pixels@.len() as int, self.width as int, icon)
    }

    closed spec fn surface(&self) -> Seq<P> {
        self.pixels@
    }

    closed spec fn clears(&self, color: P, after: Seq<P>) -> bool {
        after == repeat(color, self.pixels@.len())
    }

    closed spec fn fills(&self, x: nat, y: nat, w: nat, h: nat, color: P, after: Seq<P>) -> bool {
        let x_end = clip(x as int, w as int, self.width as int);
        let y_end = clip(y as int, h as int, self.height as int);
        if x >= x_end || y >= y_end {
            after == self.pixels@
        } else {
            after == fill_rows(self.pixels@, self.width as int, x as int, x_end, y as int, y_end, color)
        }
    }

    closed spec fn blits(&self, atlas: &A, x: nat, y: nat, text: Seq<char>, after: Seq<P>, end: nat) -> bool {
        (after, end) == atlas.spec_blit(self.pixels@, self.width as nat, x, y, text)
    }

    closed spec fn blits_char(&self, atlas: &A, x: nat, y: nat, c: char, after: Seq<P>, end: nat) -> bool {
        (after, end) == atlas.spec_blit_char(self.pixels@, self.width as nat, x, y, c)
    }

    closed spec fn blends(&self, icon: Icon, fg: P, bg: P, after: Seq<P>) -> bool {
        after == alpha_rows(
            self.pixels@,
            self.width as int,
            icon,
            fg,
            bg,
            icon_rows(self.pixels@.len() as int, self.width as int, icon) as nat,
        )
    }

    /// Fills every pixel and marks the surface dirty.
    fn clear(&mut self, color: P)
        ensures
            final(self).spec_pixels() == repeat(color, old(self).spec_pixels().len()),
            final(self).is_dirty(),
            final(self).spec_width() == old(self).spec_width(),
            final(self).spec_height() == old(self).spec_height(),
            final(self).spec_events() == old(self).spec_events(),
            old(self).wf() ==> final(self).wf(),
    {
        let n = self.pixels.len();
        let mut i: usize = 0;
        while i < n
            invariant
                n == self.pixels@.len() == old(self).pixels@.len(),
                i <= n,
                self.width == old(self).width,
                self.height == old(self).height,
                self.events@ == old(self).events@,
                forall|j: int| 0 <= j < i ==> #[trigger] self.pixels@[j] == color,
            decreases n - i,
        {
            self.pixels.set(i, color);
            i = i + 1;
        }
        assert(self.pixels@ =~= repeat(color, old(self).pixels@.len()));
        self.dirty = true;
    }

    /// Fills the part of the rectangle that lies on the surface and marks
    /// the surface dirty; nothing happens when that part is empty.
    fn fill_rect(&mut self, x: usize, y: usize, w: usize, h: usize, color: P)
        ensures
            ({
                let x_end = clip(x as int, w as int, old(self).spec_width() as int);
                let y_end = clip(y as int, h as int, old(self).spec_height() as int);
                if x >= x_end || y >= y_end {
                    final(self).spec_pixels() == old(self).spec_pixels() && final(self).is_dirty() == old(
                        self,
                    ).is_dirty()
                } else {
                    &&& final(self).spec_pixels() == fill_rows(
                        old(self).spec_pixels(),
                        old(self).spec_width() as int,
                        x as int,
                        x_end,
                        y as int,
                        y_end,
                        color,
                    )
                    &&& final(self).is_dirty()
                }
            }),
            final(self).spec_width() == old(self).spec_width(),
            final(self).spec_height() == old(self).spec_height(),
            final(self).spec_events() == old(self).spec_events(),
            final(self).wf(),
    {
        let x_end = if x + w < self.width {
            x + w
        } else {
            self.width
        };
        let y_end = if y + h < self.height {
            y + h
        } else {
            self.height
        };
        if x >= x_end || y >= y_end {
            return ;
        }
        assert((y_end - 1) * self.width + x_end <= self.width * self.height) by (nonlinear_arith)
            requires
                y_end <= self.height,
                x_end <= self.width,
                y_end >= 1,
        ;
        let width = self.width;
        fill_block(self.pixels.as_mut_slice(), width, x, x_end, y, y_end, color);
        proof {
            crate::pixbuf::lemma_fill_rows_len(old(self).pixels@, width as int, x as int, x_end as int, y as int, y_end as int, color);
        }
        self.dirty = true;
    }

    /// Draws `text` and marks the surface dirty.
    fn blit(&mut self, atlas: &A, x: usize, y: usize, text: &str) -> (end: usize)
        ensures
            (final(self).spec_pixels(), end as nat) == atlas.spec_blit(
                old(self).spec_pixels(),
                old(self).spec_width(),
                x as nat,
                y as nat,
                text@,
            ),
            final(self).is_dirty(),
            final(self).spec_width() == old(self).spec_width(),
            final(self).spec_height() == old(self).spec_height(),
            final(self).spec_events() == old(self).spec_events(),
    {
        let width = self.width;
        let end = atlas.blit(self.pixels.as_mut_slice(), width, x, y, text);
        self.dirty = true;
        end
    }

    /// Draws one character and marks the surface dirty.
    fn blit_char(&mut self, atlas: &A, x: usize, y: usize, ch: char) -> (end: usize)
        ensures
            (final(self).spec_pixels(), end as nat) == atlas.spec_blit_char(
                old(self).spec_pixels(),
                old(self).spec_width(),
                x as nat,
                y as nat,
                ch,
            ),
            final(self).is_dirty(),
            final(self).spec_width() == old(self).spec_width(),
            final(self).spec_height() == old(self).spec_height(),
            final(self).spec_events() == old(self).spec_events(),
    {
        let width = self.width;
        let end = atlas.blit_char(self.pixels.as_mut_slice(), width, x, y, ch);
        self.dirty = true;
        end
    }

    /// Blends `icon` in and marks the surface dirty.
    fn blit_alpha(&mut self, icon: &Icon, fg: P, bg: P)
        ensures
            final(self).spec_pixels() == alpha_rows(
                old(self).spec_pixels(),
                old(self).spec_width() as int,
                *icon,
                fg,
                bg,
                icon_rows(old(self).spec_pixels().len() as int, old(self).spec_width() as int, *icon) as nat,
            ),
            final(self).is_dirty(),
            final(self).spec_width() == old(self).spec_width(),
            final(self).spec_height() == old(self).spec_height(),
            final(self).spec_events() == old(self).spec_events(),
    {
        let width = self.width;
        blit_alpha_buf(self.pixels.as_mut_slice(), width, icon, fg, bg);
        self.dirty = true;
    }
}

} // verus!
