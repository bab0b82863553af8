//! Row operations on flat, row-major pixel buffers: the primitive writes that
//! every atlas blit, rectangle fill and icon blend is made of.
use vstd::prelude::*;
use vstd::arithmetic::div_mod::{lemma_fundamental_div_mod_converse_div, lemma_fundamental_div_mod_converse_mod};

verus! {

/// `s` with the elements from index `start` on replaced by `vals`.
pub open spec fn overwrite<T>(s: Seq<T>, start: int, vals: Seq<T>) -> Seq<T> {
    Seq::new(
        s.len(),
        |i: int|
            if start <= i < start + vals.len() {
                vals[i - start]
            } else {
                s[i]
            },
    )
}

/// `n` copies of `v`.
pub open spec fn repeat<T>(v: T, n: nat) -> Seq<T> {
    Seq::new(n, |i: int| v)
}

/// The buffer after the first `rows` rows of the `gw`-wide block `block`
/// were copied, row `r` of the block to index `(y + r) * stride + x`, in order.
pub open spec fn paste_rows<T>(
    fb: Seq<T>,
    stride: int,
    x: int,
    y: int,
    block: Seq<T>,
    gw: int,
    rows: nat,
) -> Seq<T>
    decreases rows,
{
    if rows == 0 {
        fb
    } else {
        let r = rows - 1;
        overwrite(
            paste_rows(fb, stride, x, y, block, gw, (rows - 1) as nat),
            (y + r) * stride + x,
            block.subrange(r * gw, r * gw + gw),
        )
    }
}

/// Every row of a `gw` x `gh` block placed at `(x, y)` lies inside a buffer
/// of `len` elements with `stride` elements per row.
pub open spec fn block_fits(len: int, stride: int, x: int, y: int, gw: int, gh: int) -> bool {
    gh > 0 ==> (y + gh - 1) * stride + x + gw <= len
}

/// The buffer after the rows `y0 .. y1` were filled with `v` between the
/// columns `x0 .. x1` (row `r` starts at index `r * stride`).
pub open spec fn fill_rows<T>(fb: Seq<T>, stride: int, x0: int, x1: int, y0: int, y1: int, v: T) -> Seq<T>
    decreases y1 - y0,
{
    if y1 <= y0 {
        fb
    } else {
        overwrite(
            fill_rows(fb, stride, x0, x1, y0, y1 - 1, v),
            (y1 - 1) * stride + x0,
            repeat(v, (x1 - x0) as nat),
        )
    }
}

pub proof fn lemma_paste_rows_len<T>(
    fb: Seq<T>,
    stride: int,
    x: int,
    y: int,
    block: Seq<T>,
    gw: int,
    rows: nat,
)
    ensures
        paste_rows(fb, stride, x, y, block, gw, rows).len() == fb.len(),
    decreases rows,
{
    if rows > 0 {
        lemma_paste_rows_len(fb, stride, x, y, block, gw, (rows - 1) as nat);
    }
}

pub proof fn lemma_fill_rows_len<T>(
    fb: Seq<T>,
    stride: int,
    x0: int,
    x1: int,
    y0: int,
    y1: int,
    v: T,
)
    ensures
        fill_rows(fb, stride, x0, x1, y0, y1, v).len() == fb.len(),
    decreases y1 - y0,
{
    if y1 > y0 {
        lemma_fill_rows_len(fb, stride, x0, x1, y0, y1 - 1, v);
    }
}

/// Index `i` of a buffer with rows `stride` apart lies in columns
/// `x0 .. x1` of one of the rows `y0 .. y1`.
pub open spec fn in_block(i: int, stride: int, x0: int, x1: int, y0: int, y1: int) -> bool {
    exists|r: int| y0 <= r < y1 && #[trigger] (r * stride) + x0 <= i < r * stride + x1
}

/// Filling a block gives every pixel of the block the colour.
pub proof fn lemma_fill_rows_sets<T>(fb: Seq<T>, stride: int, x0: int, x1: int, y0: int, y1: int, v: T)
    requires
        x0 <= x1,
    ensures
        forall|i: int|
            0 <= i < fb.len() && in_block(i, stride, x0, x1, y0, y1) ==> #[trigger] fill_rows(
                fb,
                stride,
                x0,
                x1,
                y0,
                y1,
                v,
            )[i] == v,
    decreases y1 - y0,
{
    lemma_fill_rows_len(fb, stride, x0, x1, y0, y1, v);
    if y1 > y0 {
        lemma_fill_rows_sets(fb, stride, x0, x1, y0, y1 - 1, v);
        lemma_fill_rows_len(fb, stride, x0, x1, y0, y1 - 1, v);
        assert forall|i: int| 0 <= i < fb.len() && in_block(i, stride, x0, x1, y0, y1) implies #[trigger] fill_rows(
            fb,
            stride,
            x0,
            x1,
            y0,
            y1,
            v,
        )[i] == v by {
            let r = y1 - 1;
            if !((r * stride) + x0 <= i < r * stride + x1) {
                let q = choose|q: int| y0 <= q < y1 && #[trigger] (q * stride) + x0 <= i < q * stride + x1;
                assert(q != r);
                assert(in_block(i, stride, x0, x1, y0, y1 - 1));
            }
        }
    }
}

/// Filling a block changes only the pixels of the block.
pub proof fn lemma_fill_rows_only<T>(fb: Seq<T>, stride: int, x0: int, x1: int, y0: int, y1: int, v: T)
    requires
        x0 <= x1,
    ensures
        fill_rows(fb, stride, x0, x1, y0, y1, v).len() == fb.len(),
        forall|i: int|
            0 <= i < fb.len() && !in_block(i, stride, x0, x1, y0, y1) ==> #[trigger] fill_rows(
                fb,
                stride,
                x0,
                x1,
                y0,
                y1,
                v,
            )[i] == fb[i],
    decreases y1 - y0,
{
    lemma_fill_rows_len(fb, stride, x0, x1, y0, y1, v);
    if y1 > y0 {
        lemma_fill_rows_only(fb, stride, x0, x1, y0, y1 - 1, v);
        assert forall|i: int| 0 <= i < fb.len() && !in_block(i, stride, x0, x1, y0, y1) implies #[trigger] fill_rows(
            fb,
            stride,
            x0,
            x1,
            y0,
            y1,
            v,
        )[i] == fb[i] by {
            let r = y1 - 1;
            if (r * stride) + x0 <= i < r * stride + x1 {
                assert(in_block(i, stride, x0, x1, y0, y1));
            }
            if in_block(i, stride, x0, x1, y0, y1 - 1) {
                let q = choose|q: int| y0 <= q < y1 - 1 && #[trigger] (q * stride) + x0 <= i < q * stride + x1;
                assert(in_block(i, stride, x0, x1, y0, y1));
            }
        }
    }
}

/// Copies `src[from .. from + n]` into `dst[start .. start + n]`.
pub fn copy_run<T: Copy>(dst: &mut [T], start: usize, src: &[T], from: usize, n: usize)
    requires
        start + n <= old(dst)@.len(),
        from + n <= src@.len(),
    ensures
        final(dst)@ == overwrite(old(dst)@, start as int, src@.subrange(from as int, from + n)),
{
    let ghost d0 = dst@;
    let _len = dst.len();
    let _src_len = src.len();
    let mut k: usize = 0;
    while k < n
        invariant
            k <= n,
            start + n <= d0.len() <= usize::MAX,
            from + n <= src@.len() <= usize::MAX,
            dst@.len() == d0.len(),
            forall|i: int|
                0 <= i < d0.len() ==> #[trigger] dst@[i] == if start <= i < start + k {
                    src@[from + (i - start)]
                } else {
                    d0[i]
                },
        decreases n - k,
    {
        dst[start + k] = src[from + k];
        k = k + 1;
    }
    assert(dst@ =~= overwrite(d0, start as int, src@.subrange(from as int, from + n)));
}

/// Sets `dst[start .. start + n]` to `v`.
pub fn fill_run<T: Copy>(dst: &mut [T], start: usize, n: usize, v: T)
    requires
        start + n <= old(dst)@.len(),
    ensures
        final(dst)@ == overwrite(old(dst)@, start as int, repeat(v, n as nat)),
{
    let ghost d0 = dst@;
    let _len = dst.len();
    let mut k: usize = 0;
    while k < n
        invariant
            k <= n,
            start + n <= d0.len() <= usize::MAX,
            dst@.len() == d0.len(),
            forall|i: int|
                0 <= i < d0.len() ==> #[trigger] dst@[i] == if start <= i < start + k {
                    v
                } else {
                    d0[i]
                },
        decreases n - k,
    {
        dst[start + k] = v;
        k = k + 1;
    }
    assert(dst@ =~= overwrite(d0, start as int, repeat(v, n as nat)));
}

/// Copies the `gw` x `gh` row-major block `block` into `fb` with its top-left
/// corner at `(x, y)`, one row after the other.
pub fn paste_block<T: Copy>(
    fb: &mut [T],
    stride: usize,
    x: usize,
    y: usize,
    block: &[T],
    gw: usize,
    gh: usize,
)
    requires
        block_fits(old(fb)@.len() as int, stride as int, x as int, y as int, gw as int, gh as int),
        gw * gh <= block@.len(),
        y + gh <= usize::MAX,
    ensures
        final(fb)@ == paste_rows(old(fb)@, stride as int, x as int, y as int, block@, gw as int, gh as nat),
{
    let ghost f0 = fb@;
    let _len = fb.len();
    let _block_len = block.len();
    let mut gy: usize = 0;
    while gy < gh
        invariant
            gy <= gh,
            f0.len() <= usize::MAX,
            block@.len() <= usize::MAX,
            block_fits(f0.len() as int, stride as int, x as int, y as int, gw as int, gh as int),
            gw * gh <= block@.len(),
            y + gh <= usize::MAX,
            fb@.len() == f0.len(),
            fb@ == paste_rows(f0, stride as int, x as int, y as int, block@, gw as int, gy as nat),
        decreases gh - gy,
    {
        assert((y + gy) * stride <= (y + gh - 1) * stride) by (nonlinear_arith)
            requires
                gy < gh,
        ;
        assert(gy * gw + gw <= gw * gh) by (nonlinear_arith)
            requires
                gy < gh,
        ;
        let yy = y + gy;
        assert(yy * stride + x + gw <= f0.len());
        let dst = yy * stride + x;
        copy_run(fb, dst, block, gy * gw, gw);
        gy = gy + 1;
    }
}

/// Fills columns `x0 .. x1` of the rows `y0 .. y1` with `v`.
pub fn fill_block<T: Copy>(fb: &mut [T], stride: usize, x0: usize, x1: usize, y0: usize, y1: usize, v: T)
    requires
        x0 <= x1,
        y0 < y1 ==> (y1 - 1) * stride + x1 <= old(fb)@.len(),
    ensures
        final(fb)@ == fill_rows(old(fb)@, stride as int, x0 as int, x1 as int, y0 as int, y0 as int + (
        if y0 < y1 {
            y1 - y0
        } else {
            0
        }), v),
{
    let ghost f0 = fb@;
    if y1 <= y0 {
        return ;
    }
    let _len = fb.len();
    let mut row: usize = y0;
    while row < y1
        invariant
            y0 <= row <= y1,
            f0.len() <= usize::MAX,
            x0 <= x1,
            (y1 - 1) * stride + x1 <= f0.len(),
            fb@.len() == f0.len(),
            fb@ == fill_rows(f0, stride as int, x0 as int, x1 as int, y0 as int, row as int, v),
        decreases y1 - row,
    {
        assert(row * stride <= (y1 - 1) * stride) by (nonlinear_arith)
            requires
                row < y1,
        ;
        fill_run(fb, row * stride + x0, x1 - x0, v);
        row = row + 1;
    }
}

/// A run of `n` glyphs, each `gw` x `gh`, drawn side by side from `(x, y)`
/// stays inside a buffer of `len` elements and inside `usize`.
pub open spec fn run_fits(len: int, stride: int, x: int, y: int, n: int, gw: int, gh: int) -> bool {
    &&& y + gh <= usize::MAX
    &&& x + n * gw <= usize::MAX
    &&& (gh > 0 && n > 0) ==> (y + gh - 1) * stride + x + n * gw <= len
}

/// Block `i` of a table of `size`-element blocks.
pub open spec fn table_block<T>(table: Seq<T>, i: int, size: int) -> Seq<T> {
    table.subrange(i * size, i * size + size)
}

/// The buffer after the first `k` bytes of `bytes` were drawn as fixed-size
/// glyphs: byte `b` selects block `b % count` of `glyphs` and glyph `j` is
/// placed at `(x + j * gw, y)`.
pub open spec fn glyph_run<T>(
    fb: Seq<T>,
    stride: int,
    x: int,
    y: int,
    bytes: Seq<u8>,
    glyphs: Seq<T>,
    count: int,
    gw: int,
    gh: int,
    k: nat,
) -> Seq<T>
    decreases k,
{
    if k == 0 {
        fb
    } else {
        let j = k - 1;
        paste_rows(
            glyph_run(fb, stride, x, y, bytes, glyphs, count, gw, gh, (k - 1) as nat),
            stride,
            x + j * gw,
            y,
            table_block(glyphs, bytes[j] as int % count, gw * gh),
            gw,
            gh as nat,
        )
    }
}

pub proof fn lemma_glyph_run_len<T>(
    fb: Seq<T>,
    stride: int,
    x: int,
    y: int,
    bytes: Seq<u8>,
    glyphs: Seq<T>,
    count: int,
    gw: int,
    gh: int,
    k: nat,
)
    ensures
        glyph_run(fb, stride, x, y, bytes, glyphs, count, gw, gh, k).len() == fb.len(),
    decreases k,
{
    if k > 0 {
        lemma_glyph_run_len(fb, stride, x, y, bytes, glyphs, count, gw, gh, (k - 1) as nat);
        let j = k - 1;
        lemma_paste_rows_len(
            glyph_run(fb, stride, x, y, bytes, glyphs, count, gw, gh, (k - 1) as nat),
            stride,
            x + j * gw,
            y,
            table_block(glyphs, bytes[j] as int % count, gw * gh),
            gw,
            gh as nat,
        );
    }
}

/// Draws `bytes` as a run of fixed-size glyphs taken from `glyphs` (block
/// `b % count` for byte `b`), left to right from `(x, y)`; returns the x
/// coordinate past the last glyph.
pub fn draw_glyph_run<T: Copy>(
    fb: &mut [T],
    stride: usize,
    x: usize,
    y: usize,
    bytes: &[u8],
    glyphs: &[T],
    count: usize,
    gw: usize,
    gh: usize,
) -> (end: usize)
    requires
        count > 0,
        glyphs@.len() == count * (gw * gh),
        run_fits(old(fb)@.len() as int, stride as int, x as int, y as int, bytes@.len() as int, gw as int, gh as int),
    ensures
        final(fb)@ == glyph_run(old(fb)@, stride as int, x as int, y as int, bytes@, glyphs@, count as int, gw as int, gh as int, bytes@.len() as nat),
        final(fb)@.len() == old(fb)@.len(),
        end == x + bytes@.len() * gw,
{
    let ghost f0 = fb@;
    let _glen = glyphs.len();
    assert(gw * gh <= count * (gw * gh)) by (nonlinear_arith)
        requires
            count > 0,
    ;
    assert(gh * gw == gw * gh) by (nonlinear_arith);
    let n = gh * gw;
    let mut cx = x;
    let mut k: usize = 0;
    while k < bytes.len()
        invariant
            k <= bytes@.len(),
            count > 0,
            n == gw * gh,
            glyphs@.len() == count * n,
            glyphs@.len() <= usize::MAX,
            run_fits(f0.len() as int, stride as int, x as int, y as int, bytes@.len() as int, gw as int, gh as int),
            cx == x + k * gw,
            fb@.len() == f0.len(),
            fb@ == glyph_run(f0, stride as int, x as int, y as int, bytes@, glyphs@, count as int, gw as int, gh as int, k as nat),
        decreases bytes@.len() - k,
    {
        let i = (bytes[k] as usize) % count;
        assert(i * n + n <= count * n) by (nonlinear_arith)
            requires
                i < count,
        ;
        assert(k * gw + gw <= bytes@.len() * gw) by (nonlinear_arith)
            requires
                k < bytes@.len(),
        ;
        let glyph = slice_range(glyphs, i * n, i * n + n);
        let ghost before = fb@;
        paste_block(fb, stride, cx, y, glyph, gw, gh);
        proof {
            lemma_paste_rows_len(before, stride as int, cx as int, y as int, glyph@, gw as int, gh as nat);
            assert((k + 1) * gw == k * gw + gw) by (nonlinear_arith);
        }
        cx = cx + gw;
        k = k + 1;
    }
    cx
}

/// The elements `from .. to` of `s`.
pub fn slice_range<T>(s: &[T], from: usize, to: usize) -> (r: &[T])
    requires
        from <= to <= s@.len(),
    ensures
        r@ == s@.subrange(from as int, to as int),
{
    &s[from..to]
}


/// Bit `sx` of `row` is set.
pub open spec fn bit_set(row: u8, sx: u8) -> bool {
    (row >> sx) & 1u8 == 1u8
}

/// A two-colour glyph: which pixels of a `w` x `h` cell are lit.
pub trait Mask {
    /// Pixel `(x, y)` of a `w` x `h` cell is lit.
    spec fn lit(&self, w: int, h: int, x: int, y: int) -> bool;

    /// The mask can be asked about every pixel of a `w` x `h` cell.
    spec fn sized(&self, w: int, h: int) -> bool;

    /// Whether pixel `(x, y)` of a `w` x `h` cell is lit.
    fn is_lit(&self, w: usize, h: usize, x: usize, y: usize) -> (b: bool)
        requires
            self.sized(w as int, h as int),
            x < w,
            y < h,
        ensures
            b == self.lit(w as int, h as int, x as int, y as int),
    ;
}

/// The `w` x `h` row-major glyph of `m`: `fg` on lit pixels, `bg` elsewhere.
pub open spec fn mask_glyph<M: Mask, T>(m: M, w: int, h: int, fg: T, bg: T) -> Seq<T> {
    Seq::new(
        (w * h) as nat,
        |i: int|
            if m.lit(w, h, i % w, i / w) {
                fg
            } else {
                bg
            },
    )
}

/// A colouring of the pixels of a `w` x `h` cell.
pub trait Paint<T> {
    /// The colour of pixel `(x, y)` of a `w` x `h` cell.
    spec fn color(&self, w: int, h: int, x: int, y: int) -> T;

    /// The colouring can be asked about every pixel of a `w` x `h` cell.
    spec fn paints(&self, w: int, h: int) -> bool;

    /// The colour of pixel `(x, y)` of a `w` x `h` cell.
    fn color_at(&self, w: usize, h: usize, x: usize, y: usize) -> (c: T)
        requires
            self.paints(w as int, h as int),
            x < w,
            y < h,
        ensures
            c == self.color(w as int, h as int, x as int, y as int),
    ;
}

/// The `w` x `h` row-major block coloured by `p`.
pub open spec fn painted<T, Q: Paint<T>>(p: Q, w: int, h: int) -> Seq<T> {
    Seq::new((w * h) as nat, |i: int| p.color(w, h, i % w, i / w))
}

/// Writes the block coloured by `p` into `dst[base .. base + w * h]`.
pub fn paint_block<T: Copy, Q: Paint<T>>(dst: &mut [T], base: usize, w: usize, h: usize, p: &Q)
    requires
        p.paints(w as int, h as int),
        base + w * h <= old(dst)@.len(),
    ensures
        final(dst)@ == overwrite(old(dst)@, base as int, painted(*p, w as int, h as int)),
{
    let ghost d0 = dst@;
    let ghost g = painted(*p, w as int, h as int);
    let _len = dst.len();
    let mut y: usize = 0;
    while y < h
        invariant
            y <= h,
            p.paints(w as int, h as int),
            base + w * h <= d0.len() <= usize::MAX,
            g == painted(*p, w as int, h as int),
            dst@.len() == d0.len(),
            forall|i: int|
                0 <= i < d0.len() ==> #[trigger] dst@[i] == if base <= i < base + y * w {
                    g[i - base]
                } else {
                    d0[i]
                },
        decreases h - y,
    {
        assert(y * w + w <= w * h) by (nonlinear_arith)
            requires
                y < h,
        ;
        let mut x: usize = 0;
        while x < w
            invariant
                x <= w,
                y < h,
                y * w + w <= w * h,
                p.paints(w as int, h as int),
                base + w * h <= d0.len() <= usize::MAX,
                g == painted(*p, w as int, h as int),
                dst@.len() == d0.len(),
                forall|i: int|
                    0 <= i < d0.len() ==> #[trigger] dst@[i] == if base <= i < base + y * w + x {
                        g[i - base]
                    } else {
                        d0[i]
                    },
            decreases w - x,
        {
            let k = y * w + x;
            proof {
                lemma_fundamental_div_mod_converse_div(k as int, w as int, y as int, x as int);
                lemma_fundamental_div_mod_converse_mod(k as int, w as int, y as int, x as int);
            }
            let v = p.color_at(w, h, x, y);
            dst[base + k] = v;
            x = x + 1;
        }
        assert((y + 1) * w == y * w + w) by (nonlinear_arith);
        y = y + 1;
    }
    assert(h * w == w * h) by (nonlinear_arith);
    assert(dst@ =~= overwrite(d0, base as int, g));
}

/// A mask painted `fg` on its lit pixels and `bg` elsewhere.
pub struct TwoTone<'a, M, T> {
    pub mask: &'a M,
    pub fg: T,
    pub bg: T,
}

impl<'a, M: Mask, T: Copy> Paint<T> for TwoTone<'a, M, T> {
    open spec fn color(&self, w: int, h: int, x: int, y: int) -> T {
        if self.mask.lit(w, h, x, y) {
            self.fg
        } else {
            self.bg
        }
    }

    open spec fn paints(&self, w: int, h: int) -> bool {
        self.mask.sized(w, h)
    }

    fn color_at(&self, w: usize, h: usize, x: usize, y: usize) -> (c: T) {
        if self.mask.is_lit(w, h, x, y) {
            self.fg
        } else {
            self.bg
        }
    }
}

/// Writes the glyph of `m` into `dst[base .. base + w * h]`.
pub fn bake_mask<T: Copy, M: Mask>(dst: &mut [T], base: usize, w: usize, h: usize, m: &M, fg: T, bg: T)
    requires
        m.sized(w as int, h as int),
        base + w * h <= old(dst)@.len(),
    ensures
        final(dst)@ == overwrite(old(dst)@, base as int, mask_glyph(*m, w as int, h as int, fg, bg)),
{
    let tone = TwoTone { mask: m, fg, bg };
    paint_block(dst, base, w, h, &tone);
    assert(painted(tone, w as int, h as int) =~= mask_glyph(*m, w as int, h as int, fg, bg));
}

/// `n` copies of `v`.
pub fn filled<T: Copy>(v: T, n: usize) -> (r: Vec<T>)
    ensures
        r@ == repeat(v, n as nat),
{
    let mut r: Vec<T> = Vec::new();
    let mut k: usize = 0;
    while k < n
        invariant
            k <= n,
            r@ == repeat(v, k as nat),
        decreases n - k,
    {
        r.push(v);
        k = k + 1;
        assert(r@ =~= repeat(v, k as nat));
    }
    r
}

/// Overwriting block `i` of a table of `count` blocks of `n` elements
/// replaces that block and leaves every other block as it was.
pub proof fn lemma_overwrite_block<T>(before: Seq<T>, count: int, n: int, i: int, g: Seq<T>)
    requires
        0 <= i < count,
        n >= 0,
        before.len() == count * n,
        g.len() == n,
    ensures
        overwrite(before, i * n, g).len() == before.len(),
        table_block(overwrite(before, i * n, g), i, n) == g,
        forall|j: int|
            0 <= j < count && j != i ==> #[trigger] table_block(overwrite(before, i * n, g), j, n)
                == table_block(before, j, n),
{
    let after = overwrite(before, i * n, g);
    assert(i * n + n <= count * n) by (nonlinear_arith)
        requires
            i < count,
            n >= 0,
    ;
    assert(0 <= i * n) by (nonlinear_arith)
        requires
            i >= 0,
            n >= 0,
    ;
    assert(table_block(after, i, n) =~= g);
    assert forall|j: int| 0 <= j < count && j != i implies #[trigger] table_block(after, j, n)
        == table_block(before, j, n) by {
        assert(j * n + n <= count * n && 0 <= j * n) by (nonlinear_arith)
            requires
                0 <= j < count,
                n >= 0,
        ;
        assert(j * n + n <= i * n || i * n + n <= j * n) by (nonlinear_arith)
            requires
                j != i,
                n >= 0,
        ;
        assert(table_block(after, j, n) =~= table_block(before, j, n));
    }
}

/// The buffer after the first `rows` rows of the `gw`-wide block `block`
/// were copied, row `r` to index `(y + r) * stride + x`, each row only when
/// it ends inside the buffer.
pub open spec fn clip_rows<T>(fb: Seq<T>, stride: int, x: int, y: int, block: Seq<T>, gw: int, rows: nat) -> Seq<T>
    decreases rows,
{
    if rows == 0 {
        fb
    } else {
        let r = rows - 1;
        let before = clip_rows(fb, stride, x, y, block, gw, (rows - 1) as nat);
        let dst = (y + r) * stride + x;
        if dst + gw <= fb.len() {
            overwrite(before, dst, block.subrange(r * gw, r * gw + gw))
        } else {
            before
        }
    }
}

pub proof fn lemma_clip_rows_len<T>(fb: Seq<T>, stride: int, x: int, y: int, block: Seq<T>, gw: int, rows: nat)
    ensures
        clip_rows(fb, stride, x, y, block, gw, rows).len() == fb.len(),
    decreases rows,
{
    if rows > 0 {
        lemma_clip_rows_len(fb, stride, x, y, block, gw, (rows - 1) as nat);
    }
}

/// Copies the `gw` x `gh` block `block` to `(x, y)`, skipping the rows that
/// would end past the buffer.
pub fn paste_clipped<T: Copy>(
    fb: &mut [T],
    stride: usize,
    x: usize,
    y: usize,
    block: &[T],
    gw: usize,
    gh: usize,
)
    requires
        gw * gh <= block@.len(),
        gh > 0 ==> (y + gh - 1) * stride + x + gw <= usize::MAX,
        y + gh <= usize::MAX,
    ensures
        final(fb)@ == clip_rows(old(fb)@, stride as int, x as int, y as int, block@, gw as int, gh as nat),
{
    let ghost f0 = fb@;
    let fb_len = fb.len();
    let _block_len = block.len();
    let mut gy: usize = 0;
    while gy < gh
        invariant
            gy <= gh,
            fb_len == f0.len(),
            block@.len() <= usize::MAX,
            gw * gh <= block@.len(),
            gh > 0 ==> (y + gh - 1) * stride + x + gw <= usize::MAX,
            y + gh <= usize::MAX,
            fb@.len() == f0.len(),
            fb@ == clip_rows(f0, stride as int, x as int, y as int, block@, gw as int, gy as nat),
        decreases gh - gy,
    {
        assert((y + gy) * stride <= (y + gh - 1) * stride) by (nonlinear_arith)
            requires
                gy < gh,
        ;
        assert(gy * gw + gw <= gw * gh) by (nonlinear_arith)
            requires
                gy < gh,
        ;
        let dst = (y + gy) * stride + x;
        let ghost before = fb@;
        if dst + gw <= fb_len {
            copy_run(fb, dst, block, gy * gw, gw);
        }
        proof {
            lemma_clip_rows_len(f0, stride as int, x as int, y as int, block@, gw as int, gy as nat);
        }
        gy = gy + 1;
    }
}

} // verus!
