//! Proportional atlas baked from a pre-rendered `.font` file.
//!
//! File layout (little-endian): `cell_h: u32`, then 128 advance widths
//! `u16`, then, for every code `0..128` with a non-zero width `w`, `w * cell_h`
//! coverage bytes (row-major). Coverage is blended between the foreground and
//! background colours when the atlas is built.
use vstd::prelude::*;
use crate::icon::{blend_pixel, blend_u32};
use crate::pixbuf::{block_fits, lemma_paste_rows_len, paste_block, paste_rows, slice_range};
use crate::pixel::{PixelFormat, Rgb565};
use crate::text::encode_bytes;
use crate::render::sum_of;
use super::{Pixel, Renderer};

verus! {

/// Why a `.font` file was refused.
#[derive(Debug, Clone, Copy, PartialEq, Eq, Structural)]
pub enum TtError {
    /// Fewer than 4 bytes: no cell height.
    TruncatedHeader,
    /// The 128 advance widths are incomplete.
    TruncatedWidths,
    /// Some glyph's coverage bytes are incomplete.
    TruncatedGlyph,
}

impl TtError {
    /// The error message.
    pub fn message(&self) -> (m: &'static str)
        ensures
            m@ == match self {
                TtError::TruncatedHeader => "tt: truncated header"@,
                TtError::TruncatedWidths => "tt: truncated widths"@,
                TtError::TruncatedGlyph => "tt: truncated glyph"@,
            },
    {
        match self {
            TtError::TruncatedHeader => "tt: truncated header",
            TtError::TruncatedWidths => "tt: truncated widths",
            TtError::TruncatedGlyph => "tt: truncated glyph",
        }
    }
}

/// The little-endian `u32` at index `i` of `d`.
pub open spec fn le_u32_at(d: Seq<u8>, i: int) -> int {
    d[i] + d[i + 1] * 256 + d[i + 2] * 65536 + d[i + 3] * 16777216
}

/// The little-endian `u16` at index `i` of `d`.
pub open spec fn le_u16_at(d: Seq<u8>, i: int) -> int {
    d[i] + d[i + 1] * 256
}

/// Index of the first coverage byte in a `.font` file.
pub open spec fn tt_data_start() -> int {
    260
}

/// The cell height recorded in a `.font` file.
pub open spec fn tt_cell_h(d: Seq<u8>) -> int {
    le_u32_at(d, 0)
}

/// The advance width of `code` recorded in a `.font` file.
pub open spec fn tt_width(d: Seq<u8>, code: int) -> int {
    le_u16_at(d, 4 + 2 * code)
}

/// Where the coverage of `code` starts, counted from the first coverage byte:
/// the glyphs of all smaller codes come first.
pub open spec fn tt_glyph_start(d: Seq<u8>, code: int) -> int
    decreases code,
{
    if code <= 0 {
        0
    } else {
        tt_glyph_start(d, code - 1) + tt_width(d, code - 1) * tt_cell_h(d)
    }
}

/// The number of coverage bytes (= pixels) of all 128 glyphs.
pub open spec fn tt_total(d: Seq<u8>) -> int {
    tt_glyph_start(d, 128)
}

/// The error a `.font` file is refused with, or `None` when it is complete.
pub open spec fn tt_check(d: Seq<u8>) -> Option<TtError> {
    if d.len() < 4 {
        Some(TtError::TruncatedHeader)
    } else if d.len() < tt_data_start() {
        Some(TtError::TruncatedWidths)
    } else if d.len() < tt_data_start() + tt_total(d) {
        Some(TtError::TruncatedGlyph)
    } else {
        None
    }
}

/// One RGB565 pixel blended from `fg` over `bg` with coverage `a`.
pub open spec fn tt_blend(fg: Pixel, bg: Pixel, a: u8) -> Pixel {
    blend_pixel(Rgb565(fg), Rgb565(bg), a).0
}

/// A baked proportional font: 128 glyphs of individual widths and a common height.
pub struct TtAtlas {
    cell_h: usize,
    adv: [usize; 128],
    buf: Vec<Pixel>,
    offsets: [Option<usize>; 128],
}

/// Where the pixels of `code` start in a buffer of glyphs of widths `adv`,
/// all `ch` rows high, stored in code order.
pub open spec fn adv_start(adv: Seq<usize>, ch: int, code: int) -> int
    decreases code,
{
    if code <= 0 {
        0
    } else {
        adv_start(adv, ch, code - 1) + adv[code - 1] * ch
    }
}

pub proof fn lemma_adv_start_nonneg(adv: Seq<usize>, ch: int, k: int)
    requires
        ch >= 0,
    ensures
        adv_start(adv, ch, k) >= 0,
    decreases k,
{
    if k > 0 {
        lemma_adv_start_nonneg(adv, ch, k - 1);
        assert(adv[k - 1] * ch >= 0) by (nonlinear_arith)
            requires
                ch >= 0,
        ;
    }
}

pub proof fn lemma_adv_start_mono(adv: Seq<usize>, ch: int, i: int, j: int)
    requires
        0 <= i <= j,
        ch >= 0,
    ensures
        0 <= adv_start(adv, ch, i) <= adv_start(adv, ch, j),
    decreases j - i,
{
    if i < j {
        lemma_adv_start_mono(adv, ch, i, j - 1);
        assert(adv[j - 1] * ch >= 0) by (nonlinear_arith)
            requires
                ch >= 0,
        ;
    } else {
        lemma_adv_start_nonneg(adv, ch, i);
    }
}

impl TtAtlas {
    /// Height of every glyph in pixels.
    pub closed spec fn height(&self) -> nat {
        self.cell_h as nat
    }

    /// The advance width of each of the 128 codes.
    pub closed spec fn widths(&self) -> Seq<usize> {
        self.adv@
    }

    /// All glyph pixels, in code order.
    pub closed spec fn pixels(&self) -> Seq<Pixel> {
        self.buf@
    }

    /// The glyph widths and offsets describe consecutive blocks of the buffer.
    pub closed spec fn wf(&self) -> bool {
        &&& self.buf@.len() == adv_start(self.adv@, self.cell_h as int, 128)
        &&& forall|c: int|
            0 <= c < 128 ==> if self.adv@[c] == 0 {
                self.offsets@[c] is None
            } else {
                self.offsets@[c] == Some(adv_start(self.adv@, self.cell_h as int, c) as usize)
            }
    }

    /// The pixels and width of the glyph for byte `b` (taken modulo 128), or
    /// `None` for a glyph of width zero.
    pub closed spec fn spec_glyph(&self, b: u8) -> Option<(Seq<Pixel>, nat)> {
        let c = (b % 128) as int;
        let gw = self.adv@[c];
        if gw == 0 {
            None
        } else {
            let off = adv_start(self.adv@, self.cell_h as int, c);
            Some((self.buf@.subrange(off, off + gw * self.cell_h), gw as nat))
        }
    }

    /// The buffer and pen position after drawing the first `k` bytes of `bytes` from `x`.
    pub closed spec fn draw_run(
        &self,
        fb: Seq<Pixel>,
        stride: nat,
        x: nat,
        y: nat,
        bytes: Seq<u8>,
        k: nat,
    ) -> (Seq<Pixel>, nat)
        decreases k,
    {
        if k == 0 {
            (fb, x)
        } else {
            let (f, cx) = self.draw_run(fb, stride, x, y, bytes, (k - 1) as nat);
            match self.spec_glyph(bytes[k - 1]) {
                Some((src, gw)) => (
                    paste_rows(f, stride as int, cx as int, y as int, src, gw as int, self.cell_h as nat),
                    cx + gw,
                ),
                None => (f, cx),
            }
        }
    }

    /// Drawing the first `k` bytes of `bytes` stays inside the buffer and `usize`.
    pub closed spec fn run_ok(&self, len: nat, stride: nat, x: nat, y: nat, bytes: Seq<u8>, k: nat) -> bool
        decreases k,
    {
        if k == 0 {
            y + self.cell_h <= usize::MAX
        } else {
            let (_, cx) = self.draw_run(Seq::<Pixel>::empty(), stride, x, y, bytes, (k - 1) as nat);
            &&& self.run_ok(len, stride, x, y, bytes, (k - 1) as nat)
            &&& match self.spec_glyph(bytes[k - 1]) {
                Some((_, gw)) => cx + gw <= usize::MAX && block_fits(
                    len as int,
                    stride as int,
                    cx as int,
                    y as int,
                    gw as int,
                    self.cell_h as int,
                ),
                None => true,
            }
        }
    }

    /// Byte sum of advance widths used by `text_width`.
    pub closed spec fn bytes_width(&self, bytes: Seq<u8>) -> int
        decreases bytes.len(),
    {
        if bytes.len() == 0 {
            0
        } else {
            self.bytes_width(bytes.drop_last()) + self.adv@[(bytes.last() % 128) as int]
        }
    }

    /// Bakes a `.font` file: validates its layout and blends every coverage
    /// byte between `fg` and `bg` (RGB565 colours).
    pub fn parse(data: &[u8], fg: Pixel, bg: Pixel) -> (r: Result<Self, TtError>)
        requires
            data@.len() >= tt_data_start() ==> tt_data_start() + tt_total(data@) <= usize::MAX,
        ensures
            tt_check(data@) is Some <==> r is Err,
            r matches Err(e) ==> tt_check(data@) == Some(e),
            r matches Ok(a) ==> {
                &&& a.wf()
                &&& a.height() == tt_cell_h(data@)
                &&& forall|c: int| 0 <= c < 128 ==> a.widths()[c] == tt_width(data@, c)
                &&& a.pixels().len() == tt_total(data@)
                &&& forall|k: int|
                    0 <= k < a.pixels().len() ==> a.pixels()[k] == tt_blend(
                        fg,
                        bg,
                        data@[tt_data_start() + k],
                    )
            },
    {
        if data.len() < 4 {
            return Err(TtError::TruncatedHeader);
        }
        let cell_h = read_u32_le(data, 0) as usize;
        let mut cur: usize = 4;
        if data.len() < cur + 128 * 2 {
            return Err(TtError::TruncatedWidths);
        }
        let mut aw = [0u16; 128];
        let mut i: usize = 0;
        while i < 128
            invariant
                i <= 128,
                cur == 4 + 2 * i,
                data@.len() >= tt_data_start(),
                forall|j: int| 0 <= j < i ==> aw@[j] == tt_width(data@, j),
            decreases 128 - i,
        {
            aw[i] = read_u16_le(data, cur);
            cur = cur + 2;
            i = i + 1;
        }
        let (fg_r, fg_g, fg_b) = Rgb565(fg).to_rgb();
        let (bg_r, bg_g, bg_b) = Rgb565(bg).to_rgb();
        let (fg_r, fg_g, fg_b) = (fg_r as u32, fg_g as u32, fg_b as u32);
        let (bg_r, bg_g, bg_b) = (bg_r as u32, bg_g as u32, bg_b as u32);
        let ghost d = data@;
        let ghost ch = cell_h as int;
        proof {
            lemma_tt_start_mono(d, 0, 128);
        }
        let mut total: usize = 0;
        let mut j: usize = 0;
        while j < 128
            invariant
                j <= 128,
                d == data@,
                ch == cell_h,
                ch == tt_cell_h(d),
                data@.len() >= tt_data_start(),
                tt_data_start() + tt_total(d) <= usize::MAX,
                forall|c: int| 0 <= c < 128 ==> aw@[c] == tt_width(d, c),
                total == tt_glyph_start(d, j as int),
            decreases 128 - j,
        {
            proof {
                lemma_tt_start_mono(d, j + 1, 128);
            }
            total = total + aw[j] as usize * cell_h;
            j = j + 1;
        }
        let _len = data.len();
        let mut buf: Vec<Pixel> = Vec::new();
        let mut offsets: [Option<usize>; 128] = [None; 128];
        let mut adv = [0usize; 128];
        let mut ptr: usize = 0;
        let mut code: usize = 0;
        while code < 128
            invariant
                code <= 128,
                d == data@,
                ch == cell_h,
                ch == tt_cell_h(d),
                data@.len() >= tt_data_start(),
                tt_data_start() + tt_total(d) <= usize::MAX,
                total == tt_total(d),
                cur == tt_data_start() + ptr,
                forall|c: int| 0 <= c < 128 ==> aw@[c] == tt_width(d, c),
                ptr == tt_glyph_start(d, code as int),
                buf@.len() == ptr,
                data@.len() >= tt_data_start() + ptr,
                forall|c: int| 0 <= c < code ==> adv@[c] == tt_width(d, c),
                forall|c: int| code <= c < 128 ==> offsets@[c] is None,
                data@.len() <= usize::MAX,
                forall|c: int|
                    0 <= c < code ==> if adv@[c] == 0 {
                        offsets@[c] is None
                    } else {
                        offsets@[c] == Some(tt_glyph_start(d, c) as usize)
                    },
                forall|k: int| 0 <= k < buf@.len() ==> buf@[k] == tt_blend(fg, bg, d[tt_data_start() + k]),
                fg_r == Rgb565(fg).spec_to_rgb().0 as u32,
                fg_g == Rgb565(fg).spec_to_rgb().1 as u32,
                fg_b == Rgb565(fg).spec_to_rgb().2 as u32,
                bg_r == Rgb565(bg).spec_to_rgb().0 as u32,
                bg_g == Rgb565(bg).spec_to_rgb().1 as u32,
                bg_b == Rgb565(bg).spec_to_rgb().2 as u32,
            decreases 128 - code,
        {
            proof {
                lemma_tt_start_mono(d, code + 1, 128);
            }
            let gw = aw[code] as usize;
            adv[code] = gw;
            if gw != 0 {
                offsets[code] = Some(ptr);
                let n = gw * cell_h;
                if data.len() < cur + n {
                    proof {
                        lemma_tt_start_mono(d, code + 1, 128);
                    }
                    return Err(TtError::TruncatedGlyph);
                }
                let mut i: usize = 0;
                while i < n
                    invariant
                        i <= n,
                        cur + n <= data@.len(),
                        data@.len() <= usize::MAX,
                        cur == tt_data_start() + ptr,
                        buf@.len() == ptr + i,
                        forall|k: int|
                            0 <= k < buf@.len() ==> buf@[k] == tt_blend(fg, bg, d[tt_data_start() + k]),
                        d == data@,
                        fg_r == Rgb565(fg).spec_to_rgb().0 as u32,
                        fg_g == Rgb565(fg).spec_to_rgb().1 as u32,
                        fg_b == Rgb565(fg).spec_to_rgb().2 as u32,
                        bg_r == Rgb565(bg).spec_to_rgb().0 as u32,
                        bg_g == Rgb565(bg).spec_to_rgb().1 as u32,
                        bg_b == Rgb565(bg).spec_to_rgb().2 as u32,
                    decreases n - i,
                {
                    let a = data[cur + i] as u32;
                    let r = blend_u32(fg_r, bg_r, a);
                    let g = blend_u32(fg_g, bg_g, a);
                    let b = blend_u32(fg_b, bg_b, a);
                    buf.push(Rgb565::from_rgb(r as u8, g as u8, b as u8).0);
                    i = i + 1;
                }
                cur = cur + n;
                ptr = ptr + n;
            }
            code = code + 1;
        }
        proof {
            lemma_adv_start_agrees(adv@, d, cell_h as int, 128);
            assert forall|c: int| 0 <= c < 128 implies (if adv@[c] == 0 {
                offsets@[c] is None
            } else {
                offsets@[c] == Some(adv_start(adv@, cell_h as int, c) as usize)
            }) by {
                lemma_adv_start_agrees(adv@, d, cell_h as int, c);
            }
        }
        Ok(TtAtlas { cell_h, adv, buf, offsets })
    }

    /// The glyph for byte `code` (modulo 128), with its width; `None` for width zero.
    fn glyph(&self, code: u8) -> (r: Option<(&[Pixel], usize)>)
        requires
            self.wf(),
        ensures
            match (r, self.spec_glyph(code)) {
                (Some((s, gw)), Some((t, w))) => s@ == t && gw == w && s@.len() == gw * self.height(),
                (None, None) => true,
                _ => false,
            },
    {
        let c = (code % 128) as usize;
        let gw = self.adv[c];
        if gw == 0 {
            return None;
        }
        let off = match self.offsets[c] {
            Some(o) => o,
            None => {
                return None;
            },
        };
        let _buf_len = self.buf.len();
        let ghost st = adv_start(self.adv@, self.cell_h as int, c as int);
        proof {
            lemma_adv_start_mono(self.adv@, self.cell_h as int, c + 1, 128);
            lemma_adv_start_mono(self.adv@, self.cell_h as int, c as int, 128);
            let ci = c as int;
            assert(if self.adv@[ci] == 0 {
                self.offsets@[ci] is None
            } else {
                self.offsets@[ci] == Some(adv_start(self.adv@, self.cell_h as int, ci) as usize)
            });
            assert(off == st);
            assert(adv_start(self.adv@, self.cell_h as int, c + 1) == st + gw * self.cell_h);
        }
        let n = gw * self.cell_h;
        Some((slice_range(self.buf.as_slice(), off, off + n), gw))
    }
}

/// `adv_start` over the widths read from a file is `tt_glyph_start`.
proof fn lemma_adv_start_agrees(adv: Seq<usize>, d: Seq<u8>, ch: int, code: int)
    requires
        0 <= code <= 128,
        adv.len() == 128,
        ch == tt_cell_h(d),
        forall|c: int| 0 <= c < 128 ==> adv[c] == tt_width(d, c),
    ensures
        adv_start(adv, ch, code) == tt_glyph_start(d, code),
    decreases code,
{
    if code > 0 {
        lemma_adv_start_agrees(adv, d, ch, code - 1);
    }
}

proof fn lemma_tt_start_nonneg(d: Seq<u8>, k: int)
    ensures
        tt_glyph_start(d, k) >= 0,
    decreases k,
{
    if k > 0 {
        lemma_tt_start_nonneg(d, k - 1);
        let w = tt_width(d, k - 1);
        let c = tt_cell_h(d);
        assert(w * c >= 0) by (nonlinear_arith)
            requires
                w >= 0,
                c >= 0,
        ;
    }
}

proof fn lemma_tt_start_mono(d: Seq<u8>, i: int, j: int)
    requires
        0 <= i <= j,
    ensures
        0 <= tt_glyph_start(d, i) <= tt_glyph_start(d, j),
    decreases j - i,
{
    if i < j {
        lemma_tt_start_mono(d, i, j - 1);
        let w = tt_width(d, j - 1);
        let c = tt_cell_h(d);
        assert(w * c >= 0) by (nonlinear_arith)
            requires
                w >= 0,
                c >= 0,
        ;
    } else {
        lemma_tt_start_nonneg(d, i);
    }
}

/// The little-endian `u32` at `data[i .. i + 4]`.
fn read_u32_le(data: &[u8], i: usize) -> (v: u32)
    requires
        i + 4 <= data@.len(),
    ensures
        v == le_u32_at(data@, i as int),
{
    let (b0, b1, b2, b3) = (data[i] as u32, data[i + 1] as u32, data[i + 2] as u32, data[i + 3] as u32);
    b0 + b1 * 256 + b2 * 65536 + b3 * 16777216
}

/// Whether the glyph sizes that a `.font` file declares add up, with the
/// header, to a size that fits in `usize` (files shorter than the header
/// declare none); `parse` needs this.
pub fn tt_sizes_fit(data: &[u8]) -> (ok: bool)
    ensures
        ok == (data@.len() >= tt_data_start() ==> tt_data_start() + tt_total(data@) <= usize::MAX),
{
    if data.len() < 260 {
        return true;
    }
    let ghost d = data@;
    let cell_h = read_u32_le(data, 0) as usize;
    let mut total: usize = 0;
    let mut j: usize = 0;
    while j < 128
        invariant
            j <= 128,
            d == data@,
            data@.len() >= tt_data_start(),
            cell_h == tt_cell_h(d),
            total == tt_glyph_start(d, j as int),
        decreases 128 - j,
    {
        proof {
            lemma_tt_start_mono(d, j + 1, 128);
        }
        let w = read_u16_le(data, 4 + 2 * j) as usize;
        let n = match w.checked_mul(cell_h) {
            Some(n) => n,
            None => {
                proof {
                    assert(w * cell_h >= 0) by (nonlinear_arith)
                        requires
                            w >= 0,
                            cell_h >= 0,
                    ;
                }
                return false;
            },
        };
        total = match total.checked_add(n) {
            Some(t) => t,
            None => {
                return false;
            },
        };
        j = j + 1;
    }
    total.checked_add(260).is_some()
}

/// The little-endian `u16` at `data[i .. i + 2]`.
fn read_u16_le(data: &[u8], i: usize) -> (v: u16)
    requires
        i + 2 <= data@.len(),
    ensures
        v == le_u16_at(data@, i as int),
{
    let (b0, b1) = (data[i] as u16, data[i + 1] as u16);
    b0 + b1 * 256
}


impl TtAtlas {
    proof fn lemma_draw_run_pen(&self, f1: Seq<Pixel>, f2: Seq<Pixel>, stride: nat, x: nat, y: nat, bytes: Seq<u8>, k: nat)
        ensures
            self.draw_run(f1, stride, x, y, bytes, k).1 == self.draw_run(f2, stride, x, y, bytes, k).1,
        decreases k,
    {
        if k > 0 {
            self.lemma_draw_run_pen(f1, f2, stride, x, y, bytes, (k - 1) as nat);
        }
    }

    proof fn lemma_draw_run_len(&self, fb: Seq<Pixel>, stride: nat, x: nat, y: nat, bytes: Seq<u8>, k: nat)
        ensures
            self.draw_run(fb, stride, x, y, bytes, k).0.len() == fb.len(),
        decreases k,
    {
        if k > 0 {
            self.lemma_draw_run_len(fb, stride, x, y, bytes, (k - 1) as nat);
            let (f, cx) = self.draw_run(fb, stride, x, y, bytes, (k - 1) as nat);
            if let Some((src, gw)) = self.spec_glyph(bytes[k - 1]) {
                lemma_paste_rows_len(f, stride as int, cx as int, y as int, src, gw as int, self.cell_h as nat);
            }
        }
    }

    proof fn lemma_run_ok_prefix(&self, len: nat, stride: nat, x: nat, y: nat, bytes: Seq<u8>, k: nat, n: nat)
        requires
            k <= n,
            self.run_ok(len, stride, x, y, bytes, n),
        ensures
            self.run_ok(len, stride, x, y, bytes, k),
        decreases n - k,
    {
        if k < n {
            self.lemma_run_ok_prefix(len, stride, x, y, bytes, k + 1, n);
        }
    }
}

impl Renderer for TtAtlas {
    open spec fn spec_cell_height(&self) -> nat {
        self.height()
    }

    open spec fn spec_char_width(&self, c: char) -> nat {
        if (c as u32) < 128 {
            self.widths()[(c as u32) as int] as nat
        } else {
            0
        }
    }

    /// Every glyph that the bytes of `text` select fits in the buffer.
    open spec fn can_draw(&self, len: nat, stride: nat, x: nat, y: nat, text: Seq<char>) -> bool {
        &&& self.wf()
        &&& self.run_ok(len, stride, x, y, encode_bytes(text), encode_bytes(text).len())
    }

    /// The glyph of each byte of the UTF-8 encoding of `text` (modulo 128) is
    /// pasted at the pen, which then advances by its width.
    open spec fn spec_draw(&self, fb: Seq<Pixel>, stride: nat, x: nat, y: nat, text: Seq<char>) -> Seq<Pixel> {
        self.draw_run(fb, stride, x, y, encode_bytes(text), encode_bytes(text).len()).0
    }

    fn draw(&self, fb: &mut [Pixel], stride: usize, x: usize, y: usize, text: &str) {
        let bytes = text.as_bytes();
        let ghost f0 = fb@;
        let ghost n = bytes@.len();
        let _len = fb.len();
        let ch = self.cell_h;
        let mut cx = x;
        let mut k: usize = 0;
        proof {
            self.lemma_run_ok_prefix(f0.len(), stride as nat, x as nat, y as nat, bytes@, 0, n);
        }
        while k < bytes.len()
            invariant
                k <= n == bytes@.len(),
                bytes@ == encode_bytes(text@),
                self.wf(),
                ch == self.cell_h,
                f0.len() <= usize::MAX,
                self.run_ok(f0.len(), stride as nat, x as nat, y as nat, bytes@, n),
                fb@ == self.draw_run(f0, stride as nat, x as nat, y as nat, bytes@, k as nat).0,
                cx == self.draw_run(f0, stride as nat, x as nat, y as nat, bytes@, k as nat).1,
            decreases n - k,
        {
            proof {
                self.lemma_run_ok_prefix(f0.len(), stride as nat, x as nat, y as nat, bytes@, (k + 1) as nat, n);
                self.lemma_run_ok_prefix(f0.len(), stride as nat, x as nat, y as nat, bytes@, 0, n);
                self.lemma_draw_run_pen(Seq::<Pixel>::empty(), f0, stride as nat, x as nat, y as nat, bytes@, k as nat);
                self.lemma_draw_run_len(f0, stride as nat, x as nat, y as nat, bytes@, k as nat);
            }
            match self.glyph(bytes[k]) {
                Some((src, gw)) => {
                    proof {
                        assert(gw * ch == ch * gw) by (nonlinear_arith);
                    }
                    paste_block(fb, stride, cx, y, src, gw, ch);
                    cx = cx + gw;
                },
                None => {},
            }
            k = k + 1;
        }
        proof {
            self.lemma_draw_run_len(f0, stride as nat, x as nat, y as nat, bytes@, n);
        }
    }

    fn cell_height(&self) -> (h: usize) {
        self.cell_h
    }

    fn char_width(&self, c: char) -> (w: usize) {
        let code = c as u32;
        if code < 128 {
            self.adv[code as usize]
        } else {
            0
        }
    }

    /// Measuring by bytes needs the byte sum of widths to fit in `usize`.
    open spec fn text_width_ok(&self, text: Seq<char>) -> bool {
        self.bytes_width(encode_bytes(text)) <= usize::MAX
    }

    /// Sums the advance width of the glyph of every byte of `text` (modulo 128).
    fn text_width(&self, text: &str) -> (w: usize)
        ensures
            w == self.bytes_width(encode_bytes(text@)),
    {
        let bytes = text.as_bytes();
        let n = bytes.len();
        let mut acc: usize = 0;
        let mut k: usize = 0;
        while k < n
            invariant
                k <= n == bytes@.len(),
                bytes@ == encode_bytes(text@),
                self.bytes_width(bytes@) <= usize::MAX,
                acc == self.bytes_width(bytes@.take(k as int)),
            decreases n - k,
        {
            proof {
                assert(bytes@.take(k + 1).drop_last() =~= bytes@.take(k as int));
                self.lemma_bytes_width_prefix(bytes@, (k + 1) as int);
            }
            acc = acc + self.adv[(bytes[k] % 128) as usize];
            k = k + 1;
        }
        assert(bytes@.take(n as int) =~= bytes@);
        acc
    }
}

impl TtAtlas {
    proof fn lemma_bytes_width_prefix(&self, bytes: Seq<u8>, k: int)
        requires
            0 <= k <= bytes.len(),
        ensures
            0 <= self.bytes_width(bytes.take(k)) <= self.bytes_width(bytes),
        decreases bytes.len() - k,
    {
        if k < bytes.len() {
            self.lemma_bytes_width_prefix(bytes, k + 1);
            assert(bytes.take(k + 1).drop_last() =~= bytes.take(k));
            self.lemma_bytes_width_nonneg(bytes.take(k));
        } else {
            assert(bytes.take(k) =~= bytes);
            self.lemma_bytes_width_nonneg(bytes);
        }
    }

    proof fn lemma_bytes_width_nonneg(&self, bytes: Seq<u8>)
        ensures
            self.bytes_width(bytes) >= 0,
        decreases bytes.len(),
    {
        if bytes.len() > 0 {
            self.lemma_bytes_width_nonneg(bytes.drop_last());
        }
    }
}

} // verus!
