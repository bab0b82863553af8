//! Proportional atlas baked from TrueType fonts with ab_glyph.
//!
//! The atlas holds ASCII, the caller's extra code points and every icon the
//! fonts have in the private-use block `U+F000 .. U+FA00`; each code point
//! gets the glyph of the first font (of a fallback chain) that has it with a
//! non-zero advance. A glyph is baked from a coverage cell as wide as its
//! advance and as high as the atlas, blended between the foreground and
//! background colours. Text is drawn glyph after glyph, without ligatures.
use vstd::prelude::*;
use ab_glyph::{Font, FontVec};
use crate::icon::blend_pixel;
use crate::pixbuf::{block_fits, paste_block, paste_rows, lemma_paste_rows_len};
use crate::pixel::PixelFormat;
use crate::render::{sum_of, Renderer};
use crate::text::chars_of;
use crate::ttf::{
    add_new, char_from_u32, distinct_cps, extend_unique, find_cp, glyph_cell, lemma_add_new, no_dups,
    plan_offset, scalar, spec_lut, GlyphBitmap, GlyphInfo,
};

verus! {

#[verifier::external_type_specification]
#[verifier::external_body]
pub struct ExFontVec(FontVec);

/// Whether ab_glyph parses `data` as a font.
pub uninterp spec fn ab_parses(data: Seq<u8>) -> bool;

/// The glyph id that the font parsed from `data` maps `c` to; 0 when the
/// font has no glyph for it.
pub uninterp spec fn ab_glyph_id(data: Seq<u8>, c: char) -> u16;

/// `ab_glyph::FontVec::try_from_vec`: the contract says that a font comes
/// back exactly when `ab_parses` holds of the bytes.
#[verifier::external_body]
fn parse_font_vec(data: Vec<u8>) -> (r: Option<FontVec>)
    ensures
        r is Some <==> ab_parses(data@),
{
    FontVec::try_from_vec(data).ok()
}

/// `ab_glyph::Font::glyph_id` on a `FontVec`: the contract names the id, a
/// function of the font's bytes and the character.
#[verifier::external_body]
fn glyph_id(face: &AbFace, c: char) -> (id: u16)
    ensures
        id == ab_glyph_id(face@, c),
{
    face.font.glyph_id(c).0
}

/// A font together with (the view of) the bytes it was parsed from.
pub struct AbFace {
    font: FontVec,
    bytes: Ghost<Seq<u8>>,
}

impl View for AbFace {
    type V = Seq<u8>;

    closed spec fn view(&self) -> Seq<u8> {
        self.bytes@
    }
}

impl AbFace {
    /// Parses `data`; `None` when ab_glyph refuses it.
    pub fn parse(data: Vec<u8>) -> (r: Option<Self>)
        ensures
            r is Some <==> ab_parses(data@),
            r matches Some(f) ==> f@ == data@,
    {
        let ghost bytes = data@;
        match parse_font_vec(data) {
            Some(font) => Some(AbFace { font, bytes: Ghost(bytes) }),
            None => None,
        }
    }

    /// The font this face holds: what ab_glyph parsed from its bytes.
    pub closed spec fn spec_font(&self) -> FontVec {
        self.font
    }

    /// The id of the glyph this face's font maps `c` to; 0 when it has none.
    pub fn glyph_id(&self, c: char) -> (id: u16)
        ensures
            id == ab_glyph_id(self@, c),
    {
        glyph_id(self, c)
    }

    /// The parsed font, for the metrics and rasterisation done outside.
    pub fn font(&self) -> (f: &FontVec)
        ensures
            *f == self.spec_font(),
    {
        &self.font
    }
}

/// The bytes of each font of a fallback chain.
pub open spec fn ab_face_bytes(faces: Seq<AbFace>) -> Seq<Seq<u8>> {
    faces.map_values(|f: AbFace| f@)
}

/// The code points among the first `n` of the icon block that the font
/// parsed from `data` has a glyph for, in increasing order.
pub open spec fn ab_icon_hits(data: Seq<u8>, n: nat) -> Seq<u32>
    decreases n,
{
    if n == 0 {
        Seq::empty()
    } else {
        let cp = (crate::ttf::ICON_FIRST + (n - 1)) as u32;
        let before = ab_icon_hits(data, (n - 1) as nat);
        if ab_glyph_id(data, cp as char) != 0 {
            before.push(cp)
        } else {
            before
        }
    }
}

/// `s` extended by the icon code points of the first `k` fonts.
pub open spec fn ab_add_icons(s: Seq<u32>, fonts: Seq<Seq<u8>>, k: nat) -> Seq<u32>
    decreases k,
{
    if k == 0 {
        s
    } else {
        add_new(ab_add_icons(s, fonts, (k - 1) as nat), ab_icon_hits(fonts[k - 1], crate::ttf::ICON_COUNT as nat))
    }
}

/// Every code point an atlas holds a glyph slot for, in order: ASCII, the
/// extras, then each font's icons, none twice.
pub open spec fn ab_codepoints(fonts: Seq<Seq<u8>>, extra: Seq<u32>) -> Seq<u32> {
    let ascii = Seq::new(128, |i: int| i as u32);
    ab_add_icons(add_new(ascii, extra), fonts, fonts.len())
}

/// The icon code points that `face` has a glyph for.
fn icon_points(face: &AbFace) -> (r: Vec<u32>)
    ensures
        r@ == ab_icon_hits(face@, crate::ttf::ICON_COUNT as nat),
{
    let mut r: Vec<u32> = Vec::new();
    let mut k: u32 = 0;
    while k < crate::ttf::ICON_COUNT
        invariant
            k <= crate::ttf::ICON_COUNT,
            r@ == ab_icon_hits(face@, k as nat),
        decreases crate::ttf::ICON_COUNT - k,
    {
        let cp = crate::ttf::ICON_FIRST + k;
        match char_from_u32(cp) {
            Some(c) => {
                if glyph_id(face, c) != 0 {
                    r.push(cp);
                }
            },
            None => {},
        }
        k = k + 1;
    }
    r
}

/// Lists the code points an atlas built from `faces` with `extra` holds:
/// ASCII, then `extra`, then the icons of each font in turn, each code
/// point once, in first-seen order.
pub fn collect_codepoints(faces: &[AbFace], extra: &[u32]) -> (cps: Vec<u32>)
    ensures
        cps@ == ab_codepoints(ab_face_bytes(faces@), extra@),
{
    let mut cps: Vec<u32> = Vec::new();
    let mut c: u32 = 0;
    while c < 128
        invariant
            c <= 128,
            cps@ == Seq::new(c as nat, |i: int| i as u32),
        decreases 128 - c,
    {
        cps.push(c);
        c = c + 1;
        assert(cps@ =~= Seq::new(c as nat, |i: int| i as u32));
    }
    extend_unique(&mut cps, extra);
    let ghost start = cps@;
    let ghost fonts = ab_face_bytes(faces@);
    let mut f: usize = 0;
    while f < faces.len()
        invariant
            f <= faces@.len(),
            fonts == ab_face_bytes(faces@),
            cps@ == ab_add_icons(start, fonts, f as nat),
        decreases faces@.len() - f,
    {
        let icons = icon_points(&faces[f]);
        extend_unique(&mut cps, icons.as_slice());
        f = f + 1;
    }
    cps
}

/// The first font, from index `fi` on, that has a glyph for `c` (a non-zero
/// glyph id), whatever its advance.
pub open spec fn ab_first_font(fonts: Seq<Seq<u8>>, advs: Seq<usize>, c: char, fi: int) -> Option<int>
    decreases fonts.len() - fi,
{
    if fi < 0 || fi >= fonts.len() {
        None
    } else if ab_glyph_id(fonts[fi], c) != 0 {
        Some(fi)
    } else {
        ab_first_font(fonts, advs, c, fi + 1)
    }
}

/// The glyph chosen for code point `k` of `cps`, when it is a character that
/// some font has; `advances[k][f]` is its advance width in font `f`.
pub open spec fn ab_plan_one(fonts: Seq<Seq<u8>>, cps: Seq<u32>, advances: Seq<Seq<usize>>, k: int) -> Option<
    GlyphInfo,
> {
    let cp = cps[k];
    if !scalar(cp) {
        None
    } else {
        match ab_first_font(fonts, advances[k], cp as char, 0) {
            Some(fi) => Some(GlyphInfo { cp, render_cp: cp, font_idx: fi as usize, adv: advances[k][fi] }),
            None => None,
        }
    }
}

/// The glyphs chosen for the first `n` code points, in order.
pub open spec fn ab_plan(fonts: Seq<Seq<u8>>, cps: Seq<u32>, advances: Seq<Seq<usize>>, n: nat) -> Seq<GlyphInfo>
    decreases n,
{
    if n == 0 {
        Seq::empty()
    } else {
        let before = ab_plan(fonts, cps, advances, (n - 1) as nat);
        match ab_plan_one(fonts, cps, advances, n - 1) {
            Some(g) => before.push(g),
            None => before,
        }
    }
}

proof fn lemma_ab_add_icons(s: Seq<u32>, fonts: Seq<Seq<u8>>, k: nat)
    requires
        no_dups(s),
    ensures
        no_dups(ab_add_icons(s, fonts, k)),
        s.is_prefix_of(ab_add_icons(s, fonts, k)),
    decreases k,
{
    if k > 0 {
        lemma_ab_add_icons(s, fonts, (k - 1) as nat);
        lemma_add_new(
            ab_add_icons(s, fonts, (k - 1) as nat),
            ab_icon_hits(fonts[k - 1], crate::ttf::ICON_COUNT as nat),
        );
    }
}

/// An atlas holds each code point once, and holds every ASCII code and
/// every extra code point.
pub proof fn lemma_ab_codepoints(fonts: Seq<Seq<u8>>, extra: Seq<u32>)
    ensures
        no_dups(ab_codepoints(fonts, extra)),
        forall|c: u32| c < 128 ==> #[trigger] ab_codepoints(fonts, extra).contains(c),
        forall|c: u32| #[trigger] extra.contains(c) ==> ab_codepoints(fonts, extra).contains(c),
{
    let ascii = Seq::new(128, |i: int| i as u32);
    let s1 = add_new(ascii, extra);
    let all = ab_codepoints(fonts, extra);
    lemma_add_new(ascii, extra);
    lemma_ab_add_icons(s1, fonts, fonts.len());
    assert forall|c: u32| c < 128 implies #[trigger] all.contains(c) by {
        assert(ascii[c as int] == c);
        assert(s1[c as int] == c);
        assert(all[c as int] == c);
    }
    assert forall|c: u32| #[trigger] extra.contains(c) implies all.contains(c) by {
        let j = choose|j: int| 0 <= j < s1.len() && s1[j] == c;
        assert(all[j] == c);
    }
}

proof fn lemma_ab_first_font(fonts: Seq<Seq<u8>>, advs: Seq<usize>, c: char, fi: int)
    requires
        fi >= 0,
    ensures
        ab_first_font(fonts, advs, c, fi) matches Some(f) ==> fi <= f < fonts.len(),
    decreases fonts.len() - fi,
{
    if fi < fonts.len() && ab_glyph_id(fonts[fi], c) == 0 {
        lemma_ab_first_font(fonts, advs, c, fi + 1);
    }
}

/// A plan stores each glyph under a different code point of `cps` (when
/// `cps` repeats none), from a font of the chain.
pub proof fn lemma_ab_plan(fonts: Seq<Seq<u8>>, cps: Seq<u32>, advances: Seq<Seq<usize>>, n: nat)
    requires
        n <= cps.len(),
        no_dups(cps),
    ensures
        distinct_cps(ab_plan(fonts, cps, advances, n)),
        forall|k: int|
            0 <= k < ab_plan(fonts, cps, advances, n).len() ==> {
                &&& (#[trigger] ab_plan(fonts, cps, advances, n)[k]).font_idx < fonts.len()
                &&& cps.take(n as int).contains(ab_plan(fonts, cps, advances, n)[k].cp)
            },
    decreases n,
{
    if n > 0 {
        let before = ab_plan(fonts, cps, advances, (n - 1) as nat);
        lemma_ab_plan(fonts, cps, advances, (n - 1) as nat);
        let cp = cps[n - 1];
        lemma_ab_first_font(fonts, advances[n - 1], cp as char, 0);
        assert forall|k: int| 0 <= k < before.len() implies (#[trigger] before[k]).cp != cp && cps.take(n as int).contains(
            before[k].cp,
        ) by {
            let j = choose|j: int| 0 <= j < n - 1 && #[trigger] cps.take(n - 1)[j] == before[k].cp;
            assert(cps[j] == before[k].cp);
            assert(cps.take(n as int)[j] == before[k].cp);
        }
        assert(cps.take(n as int)[n - 1] == cp);
    }
}

fn find_font(faces: &[AbFace], advs: &Vec<usize>, c: char) -> (r: Option<usize>)
    requires
        advs@.len() == faces@.len(),
    ensures
        match (r, ab_first_font(ab_face_bytes(faces@), advs@, c, 0)) {
            (Some(a), Some(b)) => a == b,
            (None, None) => true,
            _ => false,
        },
        r matches Some(a) ==> a < faces@.len(),
{
    let ghost fonts = ab_face_bytes(faces@);
    let mut fi: usize = 0;
    while fi < faces.len()
        invariant
            fi <= faces@.len() == advs@.len(),
            fonts == ab_face_bytes(faces@),
            ab_first_font(fonts, advs@, c, 0) == ab_first_font(fonts, advs@, c, fi as int),
        decreases faces@.len() - fi,
    {
        if glyph_id(&faces[fi], c) != 0 {
            return Some(fi);
        }
        fi = fi + 1;
    }
    None
}

/// Chooses the glyph of each code point of `cps`: the first font (in
/// `faces` order) that has a glyph for it, whatever its advance; code points that are
/// not characters, or that no font has, are left out. `advances[k][f]` is
/// the advance width of code point `k` in font `f` at the atlas size.
pub fn plan_glyphs(faces: &[AbFace], cps: &[u32], advances: &[Vec<usize>]) -> (plan: Vec<GlyphInfo>)
    requires
        advances@.len() == cps@.len(),
        forall|k: int| 0 <= k < advances@.len() ==> (#[trigger] advances@[k])@.len() == faces@.len(),
    ensures
        plan@ == ab_plan(ab_face_bytes(faces@), cps@, advances@.map_values(|a: Vec<usize>| a@), cps@.len()),
{
    let ghost fonts = ab_face_bytes(faces@);
    let ghost advs = advances@.map_values(|a: Vec<usize>| a@);
    let mut plan: Vec<GlyphInfo> = Vec::new();
    let mut k: usize = 0;
    while k < cps.len()
        invariant
            k <= cps@.len() == advances@.len(),
            fonts == ab_face_bytes(faces@),
            advs == advances@.map_values(|a: Vec<usize>| a@),
            forall|j: int| 0 <= j < advances@.len() ==> (#[trigger] advances@[j])@.len() == faces@.len(),
            plan@ == ab_plan(fonts, cps@, advs, k as nat),
        decreases cps@.len() - k,
    {
        let cp = cps[k];
        let row = &advances[k];
        match char_from_u32(cp) {
            Some(c) => match find_font(faces, row, c) {
                Some(fi) => plan.push(GlyphInfo { cp, render_cp: cp, font_idx: fi, adv: row[fi] }),
                None => {},
            },
            None => {},
        }
        k = k + 1;
    }
    plan
}

/// The glyph baked from the coverage cell `alpha` (`gw * ch` bytes,
/// row-major): every byte blended between `fg` and `bg`.
pub open spec fn blended<P: PixelFormat>(alpha: Seq<u8>, n: nat, fg: P, bg: P) -> Seq<P> {
    Seq::new(n, |i: int| blend_pixel(fg, bg, alpha[i]))
}

proof fn lemma_full_cell<P: PixelFormat>(alpha: Seq<u8>, gw: int, ch: int, fg: P, bg: P)
    requires
        gw >= 0,
        ch >= 0,
        alpha.len() >= gw * ch,
    ensures
        glyph_cell(alpha, gw, ch, 0, 0, spec_lut(fg, bg), gw, ch) == blended(alpha, (gw * ch) as nat, fg, bg),
{
    if gw > 0 {
        assert forall|i: int| 0 <= i < gw * ch implies #[trigger] glyph_cell(alpha, gw, ch, 0, 0, spec_lut(fg, bg), gw, ch)[i]
            == blended(alpha, (gw * ch) as nat, fg, bg)[i] by {
            vstd::arithmetic::div_mod::lemma_fundamental_div_mod(i, gw);
            assert(0 <= i % gw < gw) by {
                vstd::arithmetic::div_mod::lemma_mod_bound(i, gw);
            }
            assert(0 <= i / gw < ch) by (nonlinear_arith)
                requires
                    0 <= i < gw * ch,
                    gw > 0,
            ;
            assert((i / gw) * gw + i % gw == i) by (nonlinear_arith)
                requires
                    i == gw * (i / gw) + i % gw,
            ;
        }
    }
    assert(glyph_cell(alpha, gw, ch, 0, 0, spec_lut(fg, bg), gw, ch) =~= blended(alpha, (gw * ch) as nat, fg, bg));
}

/// A proportional atlas over pixels of format `P`.
pub struct TtfAtlas<P> {
    inner: crate::ttf::TtfAtlas<P>,
}

impl<P: PixelFormat> TtfAtlas<P> {
    /// Height of every glyph cell.
    pub closed spec fn height(&self) -> nat {
        self.inner.height()
    }

    /// The pixels and advance width of the glyph stored under `cp`.
    pub closed spec fn glyph_at(&self, cp: u32) -> Option<(Seq<P>, nat)> {
        self.inner.glyph_at(cp)
    }

    /// Every stored glyph lies inside the buffer.
    pub closed spec fn wf(&self) -> bool {
        self.inner.wf()
    }

    /// Lays the planned glyphs out side by side, glyph `k` baked from its
    /// coverage cell `cells[k]` (`adv * cell_h` bytes, row-major) blended
    /// between `fg` and `bg`; `faces` are the fonts the plan indexes.
    pub fn bake(faces: &[AbFace], plan: &[GlyphInfo], cells: &[Vec<u8>], cell_h: usize, fg: P, bg: P) -> (a: Self)
        requires
            cells@.len() == plan@.len(),
            forall|k: int| 0 <= k < plan@.len() ==> #[trigger] plan@[k].font_idx < faces@.len(),
            distinct_cps(plan@),
            forall|k: int| 0 <= k < plan@.len() ==> (#[trigger] cells@[k])@.len() == plan@[k].adv * cell_h,
            plan_offset(plan@, cell_h as int, plan@.len() as int) <= usize::MAX,
        ensures
            a.wf(),
            a.height() == cell_h,
            forall|cp: u32|
                #[trigger] a.glyph_at(cp) == match find_cp(plan@, cp, plan@.len() as int) {
                    Some(k) => if cp < 128 && plan@[k].adv == 0 {
                        None
                    } else {
                        Some((blended(cells@[k]@, (plan@[k].adv * cell_h) as nat, fg, bg), plan@[k].adv as nat))
                    },
                    None => None,
                },
    {
        let ghost cells0 = cells@;
        let mut bitmaps: Vec<GlyphBitmap> = Vec::new();
        let n = plan.len();
        let mut k: usize = 0;
        while k < n
            invariant
                k <= n == plan@.len() == cells0.len(),
                cells0 == cells@,
                bitmaps@.len() == k,
                forall|j: int|
                    0 <= j < k ==> {
                        &&& (#[trigger] bitmaps@[j]).xmin == 0
                        &&& bitmaps@[j].ymin == 0
                        &&& bitmaps@[j].width == plan@[j].adv
                        &&& bitmaps@[j].height == cell_h
                        &&& bitmaps@[j].alpha@ == cells0[j]@
                    },
            decreases n - k,
        {
            let alpha = cells[k].clone();
            assert(alpha@ =~= cells0[k as int]@);
            bitmaps.push(GlyphBitmap { xmin: 0, ymin: 0, width: plan[k].adv, height: cell_h, alpha });
            k = k + 1;
        }
        let mut ascents: Vec<Option<i32>> = Vec::new();
        let nfonts = faces.len();
        let mut f: usize = 0;
        while f < nfonts
            invariant
                f <= nfonts,
                ascents@.len() == f,
                forall|i: int| 0 <= i < f ==> #[trigger] ascents@[i] is None,
            decreases nfonts - f,
        {
            ascents.push(None);
            f = f + 1;
        }
        let inner = crate::ttf::TtfAtlas::bake(plan, bitmaps.as_slice(), ascents.as_slice(), cell_h, fg, bg);
        let a = TtfAtlas { inner };
        proof {
            assert forall|cp: u32| #[trigger] a.glyph_at(cp) == match find_cp(plan@, cp, plan@.len() as int) {
                Some(k) => if cp < 128 && plan@[k].adv == 0 {
                    None
                } else {
                    Some((blended(cells0[k]@, (plan@[k].adv * cell_h) as nat, fg, bg), plan@[k].adv as nat))
                },
                None => None,
            } by {
                if let Some(k) = find_cp(plan@, cp, plan@.len() as int) {
                    crate::ttf::lemma_find_cp_range(plan@, cp, plan@.len() as int);
                    lemma_full_cell(cells0[k]@, plan@[k].adv as int, cell_h as int, fg, bg);
                }
            }
        }
        a
    }
}

impl<P: PixelFormat> TtfAtlas<P> {
    /// The buffer and pen after drawing the characters of `chars` from
    /// position `i`, the pen at `cx`: each glyph's rows are copied to the
    /// pen and the pen advances by its width; characters without a glyph
    /// are skipped.
    pub open spec fn draw_from(&self, fb: Seq<P>, stride: int, y: int, chars: Seq<char>, i: int, cx: int) -> (Seq<P>, int)
        decreases chars.len() - i,
    {
        if i < 0 || i >= chars.len() {
            (fb, cx)
        } else {
            match self.glyph_at(chars[i] as u32) {
                Some((src, gw)) => self.draw_from(
                    paste_rows(fb, stride, cx, y, src, gw as int, self.height()),
                    stride,
                    y,
                    chars,
                    i + 1,
                    cx + gw,
                ),
                None => self.draw_from(fb, stride, y, chars, i + 1, cx),
            }
        }
    }

    /// Every glyph drawn from position `i` lies inside a buffer of `len`
    /// pixels, and the pen stays inside `usize`.
    pub open spec fn draw_ok(&self, len: int, stride: int, y: int, chars: Seq<char>, i: int, cx: int) -> bool
        decreases chars.len() - i,
    {
        if i < 0 || i >= chars.len() {
            y + self.height() <= usize::MAX
        } else {
            match self.glyph_at(chars[i] as u32) {
                Some((_, gw)) => {
                    &&& cx + gw <= usize::MAX
                    &&& block_fits(len, stride, cx, y, gw as int, self.height() as int)
                    &&& self.draw_ok(len, stride, y, chars, i + 1, cx + gw)
                },
                None => self.draw_ok(len, stride, y, chars, i + 1, cx),
            }
        }
    }
}

proof fn lemma_draw_len<P: PixelFormat>(a: &TtfAtlas<P>, fb: Seq<P>, stride: int, y: int, chars: Seq<char>, i: int, cx: int)
    ensures
        a.draw_from(fb, stride, y, chars, i, cx).0.len() == fb.len(),
    decreases chars.len() - i,
{
    if 0 <= i < chars.len() {
        if let Some((src, gw)) = a.glyph_at(chars[i] as u32) {
            lemma_paste_rows_len(fb, stride, cx, y, src, gw as int, a.height());
            lemma_draw_len(a, paste_rows(fb, stride, cx, y, src, gw as int, a.height()), stride, y, chars, i + 1, cx + gw);
        } else {
            lemma_draw_len(a, fb, stride, y, chars, i + 1, cx);
        }
    }
}

/// The sum of `f` over `s` is `f` of the first element plus the sum over the rest.
pub(crate) proof fn lemma_sum_of_first<A>(s: Seq<A>, f: spec_fn(A) -> nat)
    requires
        s.len() > 0,
    ensures
        sum_of(s, f) == f(s[0]) + sum_of(s.subrange(1, s.len() as int), f),
    decreases s.len(),
{
    if s.len() > 1 {
        lemma_sum_of_first(s.drop_last(), f);
        assert(s.drop_last().subrange(1, s.len() - 1) =~= s.subrange(1, s.len() as int).drop_last());
    } else {
        assert(s.drop_last() =~= Seq::<A>::empty());
        assert(s.subrange(1, s.len() as int) =~= Seq::<A>::empty());
    }
}

proof fn lemma_draw_pen<P: PixelFormat>(a: &TtfAtlas<P>, fb: Seq<P>, stride: int, y: int, chars: Seq<char>, i: int, cx: int)
    requires
        0 <= i <= chars.len(),
    ensures
        a.draw_from(fb, stride, y, chars, i, cx).1 == cx + sum_of(
            chars.subrange(i, chars.len() as int),
            |c: char| a.spec_char_width(c),
        ),
    decreases chars.len() - i,
{
    let f = |c: char| a.spec_char_width(c);
    let rest = chars.subrange(i, chars.len() as int);
    if i == chars.len() {
        assert(rest =~= Seq::<char>::empty());
    } else {
        lemma_sum_of_first(rest, f);
        assert(rest.subrange(1, rest.len() as int) =~= chars.subrange(i + 1, chars.len() as int));
        if let Some((src, gw)) = a.glyph_at(chars[i] as u32) {
            lemma_draw_pen(a, paste_rows(fb, stride, cx, y, src, gw as int, a.height()), stride, y, chars, i + 1, cx + gw);
        } else {
            lemma_draw_pen(a, fb, stride, y, chars, i + 1, cx);
        }
    }
}

/// Blitting returns the pen after the text: `x` plus the summed advance
/// widths of its characters, which is what `text_width` measures.
pub proof fn lemma_blit_end<P: PixelFormat>(a: &TtfAtlas<P>, fb: Seq<P>, stride: nat, x: nat, y: nat, text: Seq<char>)
    ensures
        a.spec_blit(fb, stride, x, y, text).1 == x + sum_of(text, |c: char| a.spec_char_width(c)),
{
    lemma_draw_pen(a, fb, stride as int, y as int, text, 0, x as int);
    assert(text.subrange(0, text.len() as int) =~= text);
    let d = a.draw_from(fb, stride as int, y as int, text, 0, x as int);
    assert(d.1 == x + sum_of(text, |c: char| a.spec_char_width(c)));
    crate::render::lemma_sum_of_nonneg(text, |c: char| a.spec_char_width(c));
    assert(a.spec_blit(fb, stride, x, y, text) == (d.0, d.1 as nat));
}

impl<P: PixelFormat> Renderer<P> for TtfAtlas<P> {
    open spec fn spec_cell_height(&self) -> nat {
        self.height()
    }

    open spec fn spec_char_width(&self, c: char) -> nat {
        match self.glyph_at(c as u32) {
            Some((_, w)) => w,
            None => 0,
        }
    }

    open spec fn can_blit(&self, len: nat, stride: nat, x: nat, y: nat, text: Seq<char>) -> bool {
        &&& self.wf()
        &&& y + self.height() <= usize::MAX
        &&& self.draw_ok(len as int, stride as int, y as int, text, 0, x as int)
    }

    open spec fn spec_blit(&self, fb: Seq<P>, stride: nat, x: nat, y: nat, text: Seq<char>) -> (Seq<P>, nat) {
        let (f, cx) = self.draw_from(fb, stride as int, y as int, text, 0, x as int);
        (f, cx as nat)
    }

    open spec fn can_blit_char(&self, len: nat, stride: nat, x: nat, y: nat, c: char) -> bool {
        &&& self.wf()
        &&& y + self.height() <= usize::MAX
        &&& match self.glyph_at(c as u32) {
            Some((_, gw)) => x + gw <= usize::MAX && block_fits(
                len as int,
                stride as int,
                x as int,
                y as int,
                gw as int,
                self.height() as int,
            ),
            None => true,
        }
    }

    open spec fn spec_blit_char(&self, fb: Seq<P>, stride: nat, x: nat, y: nat, c: char) -> (Seq<P>, nat) {
        match self.glyph_at(c as u32) {
            Some((src, gw)) => (paste_rows(fb, stride as int, x as int, y as int, src, gw as int, self.height()), x + gw),
            None => (fb, x),
        }
    }

    /// Draws the glyph of every character of `text` side by side.
    fn blit(&self, fb: &mut [P], stride: usize, x: usize, y: usize, text: &str) -> (end: usize) {
        let ch = self.inner.cell_height();
        let chars = chars_of(text);
        let ghost f0 = fb@;
        let ghost goal = self.draw_from(f0, stride as int, y as int, text@, 0, x as int);
        let mut cx = x;
        let mut i: usize = 0;
        while i < chars.len()
            invariant
                chars@ == text@,
                self.wf(),
                ch == self.height(),
                y + ch <= usize::MAX,
                i <= chars@.len(),
                fb@.len() == f0.len(),
                self.draw_ok(f0.len() as int, stride as int, y as int, text@, i as int, cx as int),
                self.draw_from(fb@, stride as int, y as int, text@, i as int, cx as int) == goal,
            decreases chars@.len() - i,
        {
            match self.inner.glyph_pixels(chars[i]) {
                Some((src, gw)) => {
                    proof {
                        assert(gw * ch == ch * gw) by (nonlinear_arith);
                        lemma_paste_rows_len(fb@, stride as int, cx as int, y as int, src@, gw as int, ch as nat);
                    }
                    paste_block(fb, stride, cx, y, src, gw, ch);
                    cx = cx + gw;
                },
                None => {},
            }
            i = i + 1;
        }
        cx
    }

    /// Draws the glyph of `ch` at `(x, y)`.
    fn blit_char(&self, fb: &mut [P], stride: usize, x: usize, y: usize, ch: char) -> (end: usize) {
        let h = self.inner.cell_height();
        match self.inner.glyph_pixels(ch) {
            Some((src, gw)) => {
                proof {
                    assert(gw * h == h * gw) by (nonlinear_arith);
                }
                paste_block(fb, stride, x, y, src, gw, h);
                x + gw
            },
            None => x,
        }
    }

    fn cell_height(&self) -> (h: usize) {
        self.inner.cell_height()
    }

    fn char_width(&self, c: char) -> (w: usize) {
        self.inner.char_width(c)
    }
}

} // verus!
