//! Alpha blending: icon masks composited between a foreground and a
//! background colour.
use vstd::prelude::*;
use crate::pixbuf::overwrite;
use crate::pixel::PixelFormat;

verus! {

/// One 8-bit channel blended from `f` (foreground) over `b` (background)
/// with coverage `a` (0 = background, 255 = foreground), rounded down.
pub open spec fn blend_channel(f: int, b: int, a: int) -> int {
    (f * a + b * (255 - a)) / 255
}

/// Blending stays within the channel range, and full or zero coverage gives
/// the foreground or background channel exactly.
pub proof fn lemma_blend_channel(f: int, b: int, a: int)
    requires
        0 <= f <= 255,
        0 <= b <= 255,
        0 <= a <= 255,
    ensures
        0 <= blend_channel(f, b, a) <= 255,
        a == 0 ==> blend_channel(f, b, a) == b,
        a == 255 ==> blend_channel(f, b, a) == f,
{
    assert(0 <= f * a + b * (255 - a) <= 255 * 255) by (nonlinear_arith)
        requires
            0 <= f <= 255,
            0 <= b <= 255,
            0 <= a <= 255,
    ;
    assert(a == 0 ==> (f * a + b * (255 - a)) / 255 == b) by (nonlinear_arith);
    assert(a == 255 ==> (f * a + b * (255 - a)) / 255 == f) by (nonlinear_arith);
}

/// The pixel blended from `fg` over `bg` with coverage `a`, channel by channel.
pub open spec fn blend_pixel<P: PixelFormat>(fg: P, bg: P, a: u8) -> P {
    let (fr, fgr, fb) = fg.spec_to_rgb();
    let (br, bgr, bb) = bg.spec_to_rgb();
    P::spec_from_rgb(
        blend_channel(fr as int, br as int, a as int) as u8,
        blend_channel(fgr as int, bgr as int, a as int) as u8,
        blend_channel(fb as int, bb as int, a as int) as u8,
    )
}

/// Blends one channel; the result fits a byte.
pub fn blend_u32(f: u32, b: u32, a: u32) -> (c: u32)
    requires
        f <= 255,
        b <= 255,
        a <= 255,
    ensures
        c == blend_channel(f as int, b as int, a as int),
        c <= 255,
{
    proof {
        lemma_blend_channel(f as int, b as int, a as int);
    }
    assert(f * a <= 255 * 255 && b * (255 - a) <= 255 * 255) by (nonlinear_arith)
        requires
            f <= 255,
            b <= 255,
            a <= 255,
    ;
    (f * a + b * (255 - a)) / 255
}

/// A pre-rendered alpha mask placed at `(x, y)`: `alpha` holds `w * h`
/// coverage bytes, row-major (0 = background, 255 = foreground).
pub struct Icon {
    pub x: usize,
    pub y: usize,
    pub w: usize,
    pub h: usize,
    pub alpha: &'static [u8],
}

/// How many rows of `icon` are blended into a buffer of `len` pixels: the
/// rows that start inside the buffer.
pub open spec fn icon_rows(len: int, stride: int, icon: Icon) -> int {
    let avail = len / stride - icon.y;
    if avail <= 0 {
        0
    } else if avail < icon.h {
        avail
    } else {
        icon.h as int
    }
}

/// How many pixels of row `r` of `icon` are blended: as many as the mask has bytes for.
pub open spec fn icon_cols(icon: Icon, r: int) -> int {
    let left = icon.alpha@.len() - r * icon.w;
    if left <= 0 {
        0
    } else if left < icon.w {
        left
    } else {
        icon.w as int
    }
}

/// The buffer after the first `rows` rows of `icon` were blended in.
pub open spec fn alpha_rows<P: PixelFormat>(
    buf: Seq<P>,
    stride: int,
    icon: Icon,
    fg: P,
    bg: P,
    rows: nat,
) -> Seq<P>
    decreases rows,
{
    if rows == 0 {
        buf
    } else {
        let r = rows - 1;
        overwrite(
            alpha_rows(buf, stride, icon, fg, bg, (rows - 1) as nat),
            (icon.y + r) * stride + icon.x,
            Seq::new(
                icon_cols(icon, r) as nat,
                |c: int| blend_pixel(fg, bg, icon.alpha@[r * icon.w + c]),
            ),
        )
    }
}

/// Blending keeps the buffer's length, and every blended icon pixel is the
/// pixel packed from the three channels of `fg` and `bg`, each blended by
/// that pixel's coverage from the same channel; so full coverage packs the
/// channels of `fg` and zero coverage those of `bg`. (Rows of an icon wider
/// than the stride would overlap, so the law asks for `w <= stride`.)
pub proof fn lemma_alpha_rows_pixels<P: PixelFormat>(
    buf: Seq<P>,
    stride: int,
    icon: Icon,
    fg: P,
    bg: P,
    rows: nat,
)
    requires
        icon.w <= stride,
        forall|r: int|
            0 <= r < rows && #[trigger] icon_cols(icon, r) > 0 ==> (icon.y + r) * stride + icon.x
                + icon_cols(icon, r) <= buf.len(),
    ensures
        alpha_rows(buf, stride, icon, fg, bg, rows).len() == buf.len(),
        forall|r: int, c: int|
            0 <= r < rows && 0 <= c < icon_cols(icon, r) ==> {
                let a = icon.alpha@[r * icon.w + c] as int;
                let p = #[trigger] alpha_rows(buf, stride, icon, fg, bg, rows)[(icon.y + r) * stride + icon.x + c];
                &&& p == P::spec_from_rgb(
                    blend_channel(fg.spec_to_rgb().0 as int, bg.spec_to_rgb().0 as int, a) as u8,
                    blend_channel(fg.spec_to_rgb().1 as int, bg.spec_to_rgb().1 as int, a) as u8,
                    blend_channel(fg.spec_to_rgb().2 as int, bg.spec_to_rgb().2 as int, a) as u8,
                )
                &&& a == 255 ==> p == P::spec_from_rgb(fg.spec_to_rgb().0, fg.spec_to_rgb().1, fg.spec_to_rgb().2)
                &&& a == 0 ==> p == P::spec_from_rgb(bg.spec_to_rgb().0, bg.spec_to_rgb().1, bg.spec_to_rgb().2)
            },
    decreases rows,
{
    if rows > 0 {
        let last = rows - 1;
        lemma_alpha_rows_pixels(buf, stride, icon, fg, bg, (rows - 1) as nat);
        let prev = alpha_rows(buf, stride, icon, fg, bg, (rows - 1) as nat);
        let cur = alpha_rows(buf, stride, icon, fg, bg, rows);
        let base = (icon.y + last) * stride + icon.x;
        assert forall|r: int, c: int| 0 <= r < rows && 0 <= c < icon_cols(icon, r) implies {
            let a = icon.alpha@[r * icon.w + c] as int;
            let p = #[trigger] alpha_rows(buf, stride, icon, fg, bg, rows)[(icon.y + r) * stride + icon.x + c];
            &&& p == P::spec_from_rgb(
                blend_channel(fg.spec_to_rgb().0 as int, bg.spec_to_rgb().0 as int, a) as u8,
                blend_channel(fg.spec_to_rgb().1 as int, bg.spec_to_rgb().1 as int, a) as u8,
                blend_channel(fg.spec_to_rgb().2 as int, bg.spec_to_rgb().2 as int, a) as u8,
            )
            &&& a == 255 ==> p == P::spec_from_rgb(fg.spec_to_rgb().0, fg.spec_to_rgb().1, fg.spec_to_rgb().2)
            &&& a == 0 ==> p == P::spec_from_rgb(bg.spec_to_rgb().0, bg.spec_to_rgb().1, bg.spec_to_rgb().2)
        } by {
            let a = icon.alpha@[r * icon.w + c] as int;
            let idx = (icon.y + r) * stride + icon.x + c;
            assert(icon_cols(icon, r) > 0);
            assert(idx < buf.len());
            assert(0 <= a <= 255);
            lemma_blend_channel(fg.spec_to_rgb().0 as int, bg.spec_to_rgb().0 as int, a);
            lemma_blend_channel(fg.spec_to_rgb().1 as int, bg.spec_to_rgb().1 as int, a);
            lemma_blend_channel(fg.spec_to_rgb().2 as int, bg.spec_to_rgb().2 as int, a);
            if r == last {
                assert(cur[idx] == blend_pixel(fg, bg, icon.alpha@[r * icon.w + c]));
            } else {
                assert(icon_cols(icon, r) <= icon.w);
                assert((icon.y + r) * stride + stride <= (icon.y + last) * stride) by (nonlinear_arith)
                    requires
                        r < last,
                        stride >= 0,
                ;
                assert(idx < base);
                assert(cur[idx] == prev[idx]);
                assert(prev[idx] == alpha_rows(buf, stride, icon, fg, bg, (rows - 1) as nat)[(icon.y + r) * stride + icon.x + c]);
            }
        }
    }
}

/// The index of the pixel under column `c` of row `r` of `icon`.
pub open spec fn icon_index(stride: int, icon: Icon, r: int, c: int) -> int {
    (icon.y + r) * stride + icon.x + c
}

/// Pixel `i` lies on one of the first `rows` blended rows of `icon`.
pub open spec fn on_icon(i: int, stride: int, icon: Icon, rows: nat) -> bool {
    exists|r: int, c: int| 0 <= r < rows && 0 <= c < icon_cols(icon, r) && i == #[trigger] icon_index(stride, icon, r, c)
}

/// Blending an icon leaves every pixel off the icon as it was.
pub proof fn lemma_alpha_rows_outside<P: PixelFormat>(
    buf: Seq<P>,
    stride: int,
    icon: Icon,
    fg: P,
    bg: P,
    rows: nat,
)
    ensures
        alpha_rows(buf, stride, icon, fg, bg, rows).len() == buf.len(),
        forall|i: int|
            0 <= i < buf.len() && !on_icon(i, stride, icon, rows) ==> #[trigger] alpha_rows(
                buf,
                stride,
                icon,
                fg,
                bg,
                rows,
            )[i] == buf[i],
    decreases rows,
{
    if rows > 0 {
        lemma_alpha_rows_outside(buf, stride, icon, fg, bg, (rows - 1) as nat);
        let last = rows - 1;
        let base = (icon.y + last) * stride + icon.x;
        assert forall|i: int|
            0 <= i < buf.len() && !on_icon(i, stride, icon, rows) implies #[trigger] alpha_rows(
                buf,
                stride,
                icon,
                fg,
                bg,
                rows,
            )[i] == buf[i] by {
            if base <= i < base + icon_cols(icon, last) {
                let c = i - base;
                assert(i == icon_index(stride, icon, last, c));
                assert(on_icon(i, stride, icon, rows));
            }
            if on_icon(i, stride, icon, (rows - 1) as nat) {
                let (r, c) = choose|r: int, c: int|
                    0 <= r < rows - 1 && 0 <= c < icon_cols(icon, r) && i == #[trigger] icon_index(stride, icon, r, c);
                assert(on_icon(i, stride, icon, rows));
            }
        }
    }
}

/// Blending `icon` into a buffer of `len` pixels with `stride` pixels per row
/// neither divides by zero, overflows, nor writes past the buffer.
pub open spec fn icon_fits(len: int, stride: int, icon: Icon) -> bool {
    &&& stride > 0
    &&& icon.w * icon.h <= usize::MAX
    &&& forall|r: int|
        0 <= r < icon_rows(len, stride, icon) ==> {
            &&& (icon.y + r) * stride + icon.x <= usize::MAX
            &&& #[trigger] icon_cols(icon, r) > 0 ==> (icon.y + r) * stride + icon.x + icon_cols(
                icon,
                r,
            ) <= len
        }
}

/// Alpha-blends `icon` into `buf` (row-major, `stride` pixels per row),
/// between `fg` and `bg`. Rows below the end of the buffer and mask bytes past
/// the end of `icon.alpha` are skipped.
pub fn blit_alpha_buf<P: PixelFormat>(buf: &mut [P], stride: usize, icon: &Icon, fg: P, bg: P)
    requires
        icon_fits(old(buf)@.len() as int, stride as int, *icon),
    ensures
        final(buf)@ == alpha_rows(
            old(buf)@,
            stride as int,
            *icon,
            fg,
            bg,
            icon_rows(old(buf)@.len() as int, stride as int, *icon) as nat,
        ),
{
    let ghost b0 = buf@;
    let (fr, fgr, fb) = fg.to_rgb();
    let (br, bgr, bb) = bg.to_rgb();
    let (fr, fgr, fb) = (fr as u32, fgr as u32, fb as u32);
    let (br, bgr, bb) = (br as u32, bgr as u32, bb as u32);
    let alpha_len = icon.alpha.len();
    let avail = buf.len() / stride;
    let ghost rows = icon_rows(b0.len() as int, stride as int, *icon);
    let mut row: usize = 0;
    while row < icon.h && icon.y + row < avail
        invariant
            icon_fits(b0.len() as int, stride as int, *icon),
            b0.len() <= usize::MAX,
            avail as int == b0.len() as int / stride as int,
            alpha_len == icon.alpha@.len(),
            rows == icon_rows(b0.len() as int, stride as int, *icon),
            0 <= row <= rows,
            buf@.len() == b0.len(),
            buf@ == alpha_rows(b0, stride as int, *icon, fg, bg, row as nat),
            (fr, fgr, fb) == (fg.spec_to_rgb().0 as u32, fg.spec_to_rgb().1 as u32, fg.spec_to_rgb().2 as u32),
            (br, bgr, bb) == (bg.spec_to_rgb().0 as u32, bg.spec_to_rgb().1 as u32, bg.spec_to_rgb().2 as u32),
        decreases icon.h - row,
    {
        let py = icon.y + row;
        assert(row < rows);
        assert(0 <= row < icon_rows(b0.len() as int, stride as int, *icon));
        let ghost cols = icon_cols(*icon, row as int);
        assert((icon.y + row) * stride + icon.x <= usize::MAX);
        assert(cols > 0 ==> (icon.y + row) * stride + icon.x + cols <= b0.len());
        let base = py * stride + icon.x;
        let ghost before = buf@;
        assert(row * icon.w + icon.w <= icon.w * icon.h) by (nonlinear_arith)
            requires
                row < icon.h,
        ;
        let mut col: usize = 0;
        while col < icon.w && row * icon.w + col < alpha_len
            invariant
                0 <= col <= cols,
                cols == icon_cols(*icon, row as int),
                row < icon.h,
                row * icon.w + icon.w <= icon.w * icon.h <= usize::MAX,
                alpha_len == icon.alpha@.len(),
                base == (icon.y + row) * stride + icon.x,
                cols > 0 ==> base + cols <= b0.len(),
                b0.len() <= usize::MAX,
                buf@.len() == b0.len(),
                forall|i: int|
                    0 <= i < b0.len() ==> #[trigger] buf@[i] == if base <= i < base + col {
                        blend_pixel(fg, bg, icon.alpha@[row * icon.w + (i - base)])
                    } else {
                        before[i]
                    },
                (fr, fgr, fb) == (fg.spec_to_rgb().0 as u32, fg.spec_to_rgb().1 as u32, fg.spec_to_rgb().2 as u32),
                (br, bgr, bb) == (bg.spec_to_rgb().0 as u32, bg.spec_to_rgb().1 as u32, bg.spec_to_rgb().2 as u32),
            decreases icon.w - col,
        {
            assert(col < cols);
            let a = icon.alpha[row * icon.w + col] as u32;
            let r = blend_u32(fr, br, a);
            let g = blend_u32(fgr, bgr, a);
            let b = blend_u32(fb, bb, a);
            buf[base + col] = P::from_rgb(r as u8, g as u8, b as u8);
            col = col + 1;
        }
        assert(col == cols);
        assert(buf@ =~= overwrite(
            before,
            base as int,
            Seq::new(
                cols as nat,
                |c: int| blend_pixel(fg, bg, icon.alpha@[row * icon.w + c]),
            ),
        ));
        row = row + 1;
    }
    assert(row == rows);
}

} // verus!
