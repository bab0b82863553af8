//! Geometric shapes atlas: byte `b` draws a square, a circle or a triangle,
//! cycling with `b % 3` over the 128 codes.
use vstd::prelude::*;
use crate::pixbuf::{bake_mask, draw_glyph_run, filled, glyph_run, lemma_overwrite_block, mask_glyph, run_fits, table_block, Mask};
use crate::text::encode_bytes;
use super::{Pixel, Renderer};

verus! {

/// The three shapes.
#[derive(Clone, Copy, PartialEq, Eq, Structural)]
pub enum Shape {
    Square,
    Circle,
    Triangle,
}

/// The shape drawn for glyph index `i`.
pub open spec fn shape_of(i: int) -> Shape {
    if i % 3 == 0 {
        Shape::Square
    } else if i % 3 == 1 {
        Shape::Circle
    } else {
        Shape::Triangle
    }
}

impl Shape {
    /// The shape of glyph index `i`: square, circle, triangle, cycling.
    pub fn from_index(i: usize) -> (s: Shape)
        ensures
            s == shape_of(i as int),
    {
        match i % 3 {
            0 => Shape::Square,
            1 => Shape::Circle,
            _ => Shape::Triangle,
        }
    }
}

/// The square covers the cell minus a margin of a quarter of its size.
pub open spec fn square_covers(sz: int, x: int, y: int) -> bool {
    let m = sz / 4;
    m <= x < sz - m && m <= y < sz - m
}

/// The circle is centred in the cell with radius `3 * sz / 8`: the pixel
/// whose top-left corner is at `(x, y)` is lit when
/// `(x - sz/2)^2 + (y - sz/2)^2 <= (3 sz / 8)^2`, here scaled by 64.
/// The test is exact in integers; a test of the same inequality in `f32`
/// rounds its squares once they pass 2^24, so for cells larger than about
/// 8192 pixels the two can disagree on pixels at the edge of the circle.
pub open spec fn circle_covers(sz: int, x: int, y: int) -> bool {
    16 * ((2 * x - sz) * (2 * x - sz) + (2 * y - sz) * (2 * y - sz)) <= 9 * (sz * sz)
}

/// Signed area test of `(x, y)` against the edge from `(px, py)` to `(qx, qy)`.
pub open spec fn edge(px: int, py: int, qx: int, qy: int, x: int, y: int) -> int {
    (qx - px) * (y - py) - (qy - py) * (x - px)
}

/// The triangle has its apex at `(sz/2, m)` and its base from `(m, sz - m)`
/// to `(sz - m, sz - m)`, `m = sz / 4`; a pixel is lit when it lies on the
/// same side of all three edges.
pub open spec fn triangle_covers(sz: int, x: int, y: int) -> bool {
    let m = sz / 4;
    let (ax, ay) = (sz / 2, m);
    let (bx, by) = (m, sz - m);
    let (cx, cy) = (sz - m, sz - m);
    let d0 = edge(ax, ay, bx, by, x, y);
    let d1 = edge(bx, by, cx, cy, x, y);
    let d2 = edge(cx, cy, ax, ay, x, y);
    (d0 >= 0 && d1 >= 0 && d2 >= 0) || (d0 <= 0 && d1 <= 0 && d2 <= 0)
}

/// Whether `shape` lights pixel `(x, y)` of a `sz` x `sz` cell.
pub open spec fn covers(shape: Shape, sz: int, x: int, y: int) -> bool {
    match shape {
        Shape::Square => square_covers(sz, x, y),
        Shape::Circle => circle_covers(sz, x, y),
        Shape::Triangle => triangle_covers(sz, x, y),
    }
}

/// The `sz` x `sz` glyph of `shape`, row-major: `fg` where the shape covers
/// the pixel, `bg` elsewhere.
pub open spec fn shape_glyph(shape: Shape, sz: int, fg: Pixel, bg: Pixel) -> Seq<Pixel> {
    mask_glyph(shape, sz, sz, fg, bg)
}

/// Largest cell size whose triangle edge tests fit the 32-bit arithmetic
/// they are defined with.
pub const MAX_SHAPE_SIZE: usize = 32767;

fn in_square(sz: usize, x: usize, y: usize) -> (b: bool)
    requires
        x < sz,
        y < sz,
    ensures
        b == square_covers(sz as int, x as int, y as int),
{
    let m = sz / 4;
    x >= m && x < sz - m && y >= m && y < sz - m
}

fn in_circle(sz: usize, x: usize, y: usize) -> (b: bool)
    requires
        x < sz <= MAX_SHAPE_SIZE,
        y < sz,
    ensures
        b == circle_covers(sz as int, x as int, y as int),
{
    let s = sz as i64;
    let dx = 2 * (x as i64) - s;
    let dy = 2 * (y as i64) - s;
    assert(0 <= dx * dx <= s * s && 0 <= dy * dy <= s * s && s * s <= 32767 * 32767) by (nonlinear_arith)
        requires
            -s <= dx <= s,
            -s <= dy <= s,
            0 <= s <= 32767,
    ;
    16 * (dx * dx + dy * dy) <= 9 * (s * s)
}

/// `edge` in 64-bit arithmetic, for coordinates in `0 ..= sz`.
fn edge_i64(px: i64, py: i64, qx: i64, qy: i64, x: i64, y: i64) -> (d: i64)
    requires
        0 <= px <= 32767,
        0 <= py <= 32767,
        0 <= qx <= 32767,
        0 <= qy <= 32767,
        0 <= x <= 32767,
        0 <= y <= 32767,
    ensures
        d == edge(px as int, py as int, qx as int, qy as int, x as int, y as int),
{
    let (a, b, c, e) = (qx - px, y - py, qy - py, x - px);
    assert(-32767 * 32767 <= a * b <= 32767 * 32767) by (nonlinear_arith)
        requires
            -32767 <= a <= 32767,
            -32767 <= b <= 32767,
    ;
    assert(-32767 * 32767 <= c * e <= 32767 * 32767) by (nonlinear_arith)
        requires
            -32767 <= c <= 32767,
            -32767 <= e <= 32767,
    ;
    a * b - c * e
}

fn in_triangle(sz: usize, x: usize, y: usize) -> (b: bool)
    requires
        x < sz <= MAX_SHAPE_SIZE,
        y < sz,
    ensures
        b == triangle_covers(sz as int, x as int, y as int),
{
    let m = (sz / 4) as i64;
    let s = sz as i64;
    let (ax, ay) = (s / 2, m);
    let (bx, by) = (m, s - m);
    let (cx, cy) = (s - m, s - m);
    let (px, py) = (x as i64, y as i64);
    let d0 = edge_i64(ax, ay, bx, by, px, py);
    let d1 = edge_i64(bx, by, cx, cy, px, py);
    let d2 = edge_i64(cx, cy, ax, ay, px, py);
    (d0 >= 0 && d1 >= 0 && d2 >= 0) || (d0 <= 0 && d1 <= 0 && d2 <= 0)
}

fn shape_covers(shape: Shape, sz: usize, x: usize, y: usize) -> (b: bool)
    requires
        x < sz <= MAX_SHAPE_SIZE,
        y < sz,
    ensures
        b == covers(shape, sz as int, x as int, y as int),
{
    match shape {
        Shape::Square => in_square(sz, x, y),
        Shape::Circle => in_circle(sz, x, y),
        Shape::Triangle => in_triangle(sz, x, y),
    }
}

impl Mask for Shape {
    open spec fn lit(&self, w: int, h: int, x: int, y: int) -> bool {
        covers(*self, w, x, y)
    }

    open spec fn sized(&self, w: int, h: int) -> bool {
        w == h && w <= MAX_SHAPE_SIZE
    }

    fn is_lit(&self, w: usize, h: usize, x: usize, y: usize) -> (b: bool) {
        shape_covers(*self, w, x, y)
    }
}

/// The atlas of 128 `cell_size`-square shape glyphs, baked in two colours.
pub struct ShapesAtlas {
    cell_size: usize,
    glyphs: Vec<Pixel>,
}

impl ShapesAtlas {
    /// Side of every glyph in pixels.
    pub closed spec fn size(&self) -> nat {
        self.cell_size as nat
    }

    /// The 128 glyphs, one `size * size` block after the other.
    pub closed spec fn glyph_table(&self) -> Seq<Pixel> {
        self.glyphs@
    }

    /// The glyph table holds 128 blocks.
    pub closed spec fn wf(&self) -> bool {
        self.glyphs@.len() == 128 * (self.cell_size * self.cell_size)
    }

    /// Bakes the 128 glyphs: glyph `i` is the shape `i % 3` in `fg` on `bg`.
    pub fn new(cell_size: usize, fg: Pixel, bg: Pixel) -> (a: Self)
        requires
            cell_size <= MAX_SHAPE_SIZE,
            128 * (cell_size * cell_size) <= usize::MAX,
        ensures
            a.wf(),
            a.size() == cell_size,
            forall|i: int|
                0 <= i < 128 ==> #[trigger] table_block(a.glyph_table(), i, (cell_size * cell_size) as int)
                    == shape_glyph(shape_of(i), cell_size as int, fg, bg),
    {
        let n = cell_size * cell_size;
        let mut glyphs = filled(bg, 128 * n);
        let mut i: usize = 0;
        while i < 128
            invariant
                i <= 128,
                n == cell_size * cell_size,
                cell_size <= MAX_SHAPE_SIZE,
                128 * n <= usize::MAX,
                glyphs@.len() == 128 * n,
                forall|j: int|
                    0 <= j < i ==> #[trigger] table_block(glyphs@, j, n as int) == shape_glyph(
                        shape_of(j),
                        cell_size as int,
                        fg,
                        bg,
                    ),
            decreases 128 - i,
        {
            assert(i * n + n <= 128 * n) by (nonlinear_arith)
                requires
                    i < 128,
            ;
            let ghost before = glyphs@;
            let shape = Shape::from_index(i);
            bake_mask(glyphs.as_mut_slice(), i * n, cell_size, cell_size, &shape, fg, bg);
            proof {
                lemma_overwrite_block(before, 128, n as int, i as int, shape_glyph(shape, cell_size as int, fg, bg));
            }
            i = i + 1;
        }
        ShapesAtlas { cell_size, glyphs }
    }
}

impl Renderer for ShapesAtlas {
    open spec fn spec_cell_height(&self) -> nat {
        self.size()
    }

    open spec fn spec_char_width(&self, c: char) -> nat {
        self.size()
    }

    /// The run of square glyphs, one per byte of `text`, fits in the buffer.
    open spec fn can_draw(&self, len: nat, stride: nat, x: nat, y: nat, text: Seq<char>) -> bool {
        &&& self.wf()
        &&& run_fits(
            len as int,
            stride as int,
            x as int,
            y as int,
            encode_bytes(text).len() as int,
            self.size() as int,
            self.size() as int,
        )
    }

    /// Byte `j` of the UTF-8 encoding of `text` pastes glyph `byte % 128` at
    /// `(x + j * size, y)`.
    open spec fn spec_draw(&self, fb: Seq<Pixel>, stride: nat, x: nat, y: nat, text: Seq<char>) -> Seq<Pixel> {
        glyph_run(
            fb,
            stride as int,
            x as int,
            y as int,
            encode_bytes(text),
            self.glyph_table(),
            128,
            self.size() as int,
            self.size() as int,
            encode_bytes(text).len(),
        )
    }

    fn draw(&self, fb: &mut [Pixel], stride: usize, x: usize, y: usize, text: &str) {
        let bytes = text.as_bytes();
        let sz = self.cell_size;
        draw_glyph_run(fb, stride, x, y, bytes, self.glyphs.as_slice(), 128, sz, sz);
    }

    fn cell_height(&self) -> (h: usize) {
        self.cell_size
    }

    fn char_width(&self, c: char) -> (w: usize) {
        self.cell_size
    }
}

} // verus!
