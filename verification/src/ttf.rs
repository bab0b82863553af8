//! Proportional atlas baked from TrueType fonts with fontdue.
//!
//! Baking happens in three steps. [`collect_codepoints`] lists every code
//! point the atlas will hold: ASCII, the caller's extras, the `ff`/`fi`/`fl`/
//! `ffi`/`ffl` ligatures and every icon the fonts have in the private-use
//! block `U+F000 .. U+FA00`. [`plan_glyphs`] picks, for each code point, the
//! first font (of a fallback chain) that has it with a non-zero advance,
//! trying a plain-ASCII stand-in when none does. [`TtfAtlas::bake`] then lays
//! the rasterised glyphs out side by side in one pixel buffer, each in a cell
//! of its advance width and the common cell height, coverage blended between
//! the foreground and background colours through a 256-entry table.
//! Drawing is then a matter of row copies, with the ligatures substituted.
use vstd::prelude::*;
use std::collections::HashMap;
use fontdue::{Font, FontSettings};
use crate::icon::{blend_pixel, blend_u32};
use crate::pixbuf::{clip_rows, paint_block, painted, paste_clipped, slice_range, Paint};
use crate::render::{sum_of, Renderer};
use crate::text::chars_of;
use crate::pixel::PixelFormat;

verus! {

broadcast use vstd::std_specs::hash::group_hash_axioms;

#[verifier::external_type_specification]
#[verifier::external_body]
pub struct ExFont(Font);

/// Whether fontdue parses `data` as a font with its default settings.
pub uninterp spec fn font_parses(data: Seq<u8>) -> bool;

/// The glyph index that the font parsed from `data` maps `c` to; 0 when the
/// font has no glyph for it.
pub uninterp spec fn font_glyph_index(data: Seq<u8>, c: char) -> u16;

/// `fontdue::Font::from_bytes` with `FontSettings::default()`. The contract
/// says that a font comes back exactly when `font_parses` holds of the bytes;
/// what the font holds is left to the other trusted items.
#[verifier::external_body]
fn parse_font(data: &[u8]) -> (r: Option<Font>)
    ensures
        r is Some <==> font_parses(data@),
{
    Font::from_bytes(data, FontSettings::default()).ok()
}

/// `fontdue::Font::lookup_glyph_index`: the contract names its result, a
/// function of the font's bytes and the character.
#[verifier::external_body]
fn lookup_glyph_index(face: &FontFace, c: char) -> (i: u16)
    ensures
        i == font_glyph_index(face@, c),
{
    face.font.lookup_glyph_index(c)
}

/// `char::from_u32`: std documents that it returns the character with the
/// code point `cp` when `cp` is a Unicode scalar value, and `None` otherwise.
#[verifier::external_body]
pub(crate) fn char_from_u32(cp: u32) -> (r: Option<char>)
    ensures
        r is Some <==> scalar(cp),
        r matches Some(c) ==> c == cp as char,
{
    char::from_u32(cp)
}

/// `cp` is a Unicode scalar value: a code point outside the surrogates.
pub open spec fn scalar(cp: u32) -> bool {
    cp < 0xD800 || (0xE000 <= cp && cp <= 0x10FFFF)
}

/// A font together with the bytes it was parsed from.
pub struct FontFace<'a> {
    data: &'a [u8],
    font: Font,
}

impl<'a> View for FontFace<'a> {
    type V = Seq<u8>;

    closed spec fn view(&self) -> Seq<u8> {
        self.data@
    }
}

impl<'a> FontFace<'a> {
    /// The font this face holds: what fontdue parsed from its bytes.
    pub closed spec fn spec_font(&self) -> Font {
        self.font
    }

    /// The parsed font, for the metrics and rasterisation done outside.
    pub fn font(&self) -> (f: &Font)
        ensures
            *f == self.spec_font(),
    {
        &self.font
    }

    /// Parses `data`; `None` when fontdue refuses it.
    pub fn parse(data: &'a [u8]) -> (r: Option<Self>)
        ensures
            r is Some <==> font_parses(data@),
            r matches Some(f) ==> f@ == data@,
    {
        match parse_font(data) {
            Some(font) => Some(FontFace { data, font }),
            None => None,
        }
    }
}

/// The bytes of each font of a fallback chain.
pub open spec fn face_bytes<'a>(faces: Seq<FontFace<'a>>) -> Seq<Seq<u8>> {
    faces.map_values(|f: FontFace<'a>| f@)
}

// ─── Code points ────────────────────────────────────────────────────────────

/// `s` with `cp` appended unless it already holds it.
pub open spec fn push_new(s: Seq<u32>, cp: u32) -> Seq<u32> {
    if s.contains(cp) {
        s
    } else {
        s.push(cp)
    }
}

/// `s` with each of `xs`, in order, appended unless already present.
pub open spec fn add_new(s: Seq<u32>, xs: Seq<u32>) -> Seq<u32>
    decreases xs.len(),
{
    if xs.len() == 0 {
        s
    } else {
        push_new(add_new(s, xs.drop_last()), xs.last())
    }
}

/// First code point of the icon block that the fonts are scanned for.
pub const ICON_FIRST: u32 = 0xF000;

/// Number of code points of the icon block.
pub const ICON_COUNT: u32 = 0xA00;

/// The code points among the first `n` of the icon block that the font
/// parsed from `data` has a glyph for, in increasing order.
pub open spec fn icon_hits(data: Seq<u8>, n: nat) -> Seq<u32>
    decreases n,
{
    if n == 0 {
        Seq::empty()
    } else {
        let cp = (ICON_FIRST + (n - 1)) as u32;
        let before = icon_hits(data, (n - 1) as nat);
        if font_glyph_index(data, cp as char) != 0 {
            before.push(cp)
        } else {
            before
        }
    }
}

/// `s` extended by the icon code points of the first `k` fonts.
pub open spec fn add_icons(s: Seq<u32>, fonts: Seq<Seq<u8>>, k: nat) -> Seq<u32>
    decreases k,
{
    if k == 0 {
        s
    } else {
        add_new(add_icons(s, fonts, (k - 1) as nat), icon_hits(fonts[k - 1], ICON_COUNT as nat))
    }
}

/// The code points of the `ff`, `fi`, `fl`, `ffi` and `ffl` ligatures.
pub open spec fn ligature_points() -> Seq<u32> {
    seq![0xFB00u32, 0xFB01u32, 0xFB02u32, 0xFB03u32, 0xFB04u32]
}

/// Every code point an atlas holds a glyph slot for, in order: ASCII, the
/// extras, the ligatures, then each font's icons, none twice.
pub open spec fn spec_codepoints(fonts: Seq<Seq<u8>>, extra: Seq<u32>) -> Seq<u32> {
    let ascii = Seq::new(128, |i: int| i as u32);
    add_icons(add_new(add_new(ascii, extra), ligature_points()), fonts, fonts.len())
}

/// Whether `v` holds `cp`.
fn holds(v: &Vec<u32>, cp: u32) -> (b: bool)
    ensures
        b == v@.contains(cp),
{
    let mut i: usize = 0;
    while i < v.len()
        invariant
            i <= v@.len(),
            forall|j: int| 0 <= j < i ==> v@[j] != cp,
        decreases v@.len() - i,
    {
        if v[i] == cp {
            return true;
        }
        i = i + 1;
    }
    false
}

/// Appends `cp` to `v` unless `v` holds it.
fn push_unique(v: &mut Vec<u32>, cp: u32)
    ensures
        final(v)@ == push_new(old(v)@, cp),
{
    if !holds(v, cp) {
        v.push(cp);
    }
}

/// Appends each of `xs`, in order, unless already present.
pub(crate) fn extend_unique(v: &mut Vec<u32>, xs: &[u32])
    ensures
        final(v)@ == add_new(old(v)@, xs@),
{
    let ghost v0 = v@;
    let mut i: usize = 0;
    while i < xs.len()
        invariant
            i <= xs@.len(),
            v@ == add_new(v0, xs@.take(i as int)),
        decreases xs@.len() - i,
    {
        proof {
            assert(xs@.take(i + 1).drop_last() =~= xs@.take(i as int));
        }
        push_unique(v, xs[i]);
        i = i + 1;
    }
    assert(xs@.take(xs@.len() as int) =~= xs@);
}

/// The icon code points that `face` has a glyph for.
fn icon_points(face: &FontFace) -> (r: Vec<u32>)
    ensures
        r@ == icon_hits(face@, ICON_COUNT as nat),
{
    let mut r: Vec<u32> = Vec::new();
    let mut k: u32 = 0;
    while k < ICON_COUNT
        invariant
            k <= ICON_COUNT,
            r@ == icon_hits(face@, k as nat),
        decreases ICON_COUNT - k,
    {
        let cp = ICON_FIRST + k;
        match char_from_u32(cp) {
            Some(c) => {
                if lookup_glyph_index(face, c) != 0 {
                    r.push(cp);
                }
            },
            None => {},
        }
        k = k + 1;
    }
    r
}

/// Lists the code points an atlas built from `faces` with `extra` holds:
/// ASCII, then `extra`, then the five ligatures, then the icons of each
/// font in turn, each code point once, in first-seen order.
pub fn collect_codepoints(faces: &[FontFace], extra: &[u32]) -> (cps: Vec<u32>)
    ensures
        cps@ == spec_codepoints(face_bytes(faces@), extra@),
{
    let mut cps: Vec<u32> = Vec::new();
    let mut c: u32 = 0;
    while c < 128
        invariant
            c <= 128,
            cps@ == Seq::new(c as nat, |i: int| i as u32),
        decreases 128 - c,
    {
        cps.push(c);
        c = c + 1;
        assert(cps@ =~= Seq::new(c as nat, |i: int| i as u32));
    }
    extend_unique(&mut cps, extra);
    let ligs: [u32; 5] = [0xFB00, 0xFB01, 0xFB02, 0xFB03, 0xFB04];
    assert(ligs@ =~= ligature_points());
    extend_unique(&mut cps, ligs.as_slice());
    let ghost start = cps@;
    let ghost fonts = face_bytes(faces@);
    let mut f: usize = 0;
    while f < faces.len()
        invariant
            f <= faces@.len(),
            fonts == face_bytes(faces@),
            cps@ == add_icons(start, fonts, f as nat),
        decreases faces@.len() - f,
    {
        let icons = icon_points(&faces[f]);
        extend_unique(&mut cps, icons.as_slice());
        f = f + 1;
    }
    cps
}

// ─── Planning ───────────────────────────────────────────────────────────────

/// The plain-ASCII stand-in drawn for a code point that no font has:
/// minus sign as hyphen, middle dot as full stop.
pub open spec fn spec_fallback(cp: u32) -> u32 {
    if cp == 0x2212 {
        0x2D
    } else if cp == 0xB7 {
        0x2E
    } else {
        cp
    }
}

/// The two code points tried, in order, for `cp`: itself and its stand-in
/// (itself again when it has none).
pub fn candidates(cp: u32) -> (r: [u32; 2])
    ensures
        r@ == seq![cp, spec_fallback(cp)],
{
    let alt = if cp == 0x2212 {
        0x2D
    } else if cp == 0xB7 {
        0x2E
    } else {
        cp
    };
    let r = [cp, alt];
    assert(r@ =~= seq![cp, spec_fallback(cp)]);
    r
}

/// A glyph chosen for the atlas: the code point it is stored under, the code
/// point actually drawn, the font it comes from and its advance width.
#[derive(Clone, Copy, PartialEq, Eq, Structural)]
pub struct GlyphInfo {
    pub cp: u32,
    pub render_cp: u32,
    pub font_idx: usize,
    pub adv: usize,
}

/// The first font, from index `fi` on, that has a glyph for `c` (a non-zero
/// glyph index), whatever its advance.
pub open spec fn first_font(fonts: Seq<Seq<u8>>, advs: Seq<usize>, c: char, fi: int) -> Option<int>
    decreases fonts.len() - fi,
{
    if fi < 0 || fi >= fonts.len() {
        None
    } else if font_glyph_index(fonts[fi], c) != 0 {
        Some(fi)
    } else {
        first_font(fonts, advs, c, fi + 1)
    }
}

/// The glyph drawn for `try_cp`, stored under `cp`, when `try_cp` is a
/// character that some font has.
pub open spec fn try_glyph(fonts: Seq<Seq<u8>>, advs: Seq<usize>, cp: u32, try_cp: u32) -> Option<GlyphInfo> {
    if !scalar(try_cp) {
        None
    } else {
        match first_font(fonts, advs, try_cp as char, 0) {
            Some(fi) => Some(GlyphInfo { cp, render_cp: try_cp, font_idx: fi as usize, adv: advs[fi] }),
            None => None,
        }
    }
}

/// The glyph chosen for code point `k` of `cps`: its own if some font has
/// it, else its stand-in's. `advances[2 * k + j][f]` is the advance, in font
/// `f`, of candidate `j` of code point `k`.
pub open spec fn plan_one(fonts: Seq<Seq<u8>>, cps: Seq<u32>, advances: Seq<Seq<usize>>, k: int) -> Option<
    GlyphInfo,
> {
    let cp = cps[k];
    match try_glyph(fonts, advances[2 * k], cp, cp) {
        Some(g) => Some(g),
        None => try_glyph(fonts, advances[2 * k + 1], cp, spec_fallback(cp)),
    }
}

/// The glyphs chosen for the first `n` code points, in order; code points
/// that no font has are left out.
pub open spec fn spec_plan(fonts: Seq<Seq<u8>>, cps: Seq<u32>, advances: Seq<Seq<usize>>, n: nat) -> Seq<
    GlyphInfo,
>
    decreases n,
{
    if n == 0 {
        Seq::empty()
    } else {
        let before = spec_plan(fonts, cps, advances, (n - 1) as nat);
        match plan_one(fonts, cps, advances, n - 1) {
            Some(g) => before.push(g),
            None => before,
        }
    }
}

/// The advance tables match the code points and the fonts.
pub open spec fn advances_fit(nfonts: nat, ncps: nat, advances: Seq<Seq<usize>>) -> bool {
    &&& advances.len() == 2 * ncps
    &&& forall|r: int| 0 <= r < advances.len() ==> #[trigger] advances[r].len() == nfonts
}

/// Searches the fonts from index 0 for one that has a glyph for `c`.
fn find_font(faces: &[FontFace], advs: &Vec<usize>, c: char) -> (r: Option<usize>)
    requires
        advs@.len() == faces@.len(),
    ensures
        match (r, first_font(face_bytes(faces@), advs@, c, 0)) {
            (Some(a), Some(b)) => a == b,
            (None, None) => true,
            _ => false,
        },
        r matches Some(a) ==> a < faces@.len(),
{
    let ghost fonts = face_bytes(faces@);
    let mut fi: usize = 0;
    while fi < faces.len()
        invariant
            fi <= faces@.len() == advs@.len(),
            fonts == face_bytes(faces@),
            first_font(fonts, advs@, c, 0) == first_font(fonts, advs@, c, fi as int),
        decreases faces@.len() - fi,
    {
        if lookup_glyph_index(&faces[fi], c) != 0 {
            return Some(fi);
        }
        fi = fi + 1;
    }
    None
}

/// The glyph drawn for `try_cp`, stored under `cp`.
fn try_candidate(faces: &[FontFace], advs: &Vec<usize>, cp: u32, try_cp: u32) -> (r: Option<GlyphInfo>)
    requires
        advs@.len() == faces@.len(),
    ensures
        r == try_glyph(face_bytes(faces@), advs@, cp, try_cp),
{
    match char_from_u32(try_cp) {
        Some(c) => match find_font(faces, advs, c) {
            Some(fi) => Some(GlyphInfo { cp, render_cp: try_cp, font_idx: fi, adv: advs[fi] }),
            None => None,
        },
        None => None,
    }
}

/// Chooses the glyph of each code point of `cps`: the first font (in
/// `faces` order) that has a glyph for the code point, whatever its advance,
/// else the first that has its ASCII stand-in; code points without either are left
/// out. `advances[2 * k + j][f]` is the advance width, in font `f` at the
/// atlas size, of candidate `j` (see [`candidates`]) of code point `k`.
pub fn plan_glyphs(faces: &[FontFace], cps: &[u32], advances: &[Vec<usize>]) -> (plan: Vec<GlyphInfo>)
    requires
        advances_fit(faces@.len(), cps@.len(), advances@.map_values(|a: Vec<usize>| a@)),
    ensures
        plan@ == spec_plan(face_bytes(faces@), cps@, advances@.map_values(|a: Vec<usize>| a@), cps@.len()),
{
    let ghost fonts = face_bytes(faces@);
    let ghost advs = advances@.map_values(|a: Vec<usize>| a@);
    let mut plan: Vec<GlyphInfo> = Vec::new();
    let _n = advances.len();
    let mut k: usize = 0;
    while k < cps.len()
        invariant
            k <= cps@.len(),
            advances@.len() <= usize::MAX,
            fonts == face_bytes(faces@),
            advs == advances@.map_values(|a: Vec<usize>| a@),
            advances_fit(faces@.len(), cps@.len(), advs),
            plan@ == spec_plan(fonts, cps@, advs, k as nat),
        decreases cps@.len() - k,
    {
        let cp = cps[k];
        let cand = candidates(cp);
        assert(advs[2 * k as int].len() == faces@.len());
        assert(advs[2 * k + 1].len() == faces@.len());
        let first = try_candidate(faces, &advances[2 * k], cp, cand[0]);
        let chosen = match first {
            Some(g) => Some(g),
            None => try_candidate(faces, &advances[2 * k + 1], cp, cand[1]),
        };
        match chosen {
            Some(g) => plan.push(g),
            None => {},
        }
        k = k + 1;
    }
    plan
}


/// No value occurs twice in `s`.
pub open spec fn no_dups(s: Seq<u32>) -> bool {
    forall|i: int, j: int| 0 <= i < j < s.len() ==> s[i] != s[j]
}

/// Appending the new values of `xs` keeps `s` in front, adds every value
/// of `xs`, adds nothing else, and repeats nothing.
pub proof fn lemma_add_new(s: Seq<u32>, xs: Seq<u32>)
    requires
        no_dups(s),
    ensures
        no_dups(add_new(s, xs)),
        s.is_prefix_of(add_new(s, xs)),
        forall|x: u32| #[trigger] xs.contains(x) ==> add_new(s, xs).contains(x),
        forall|x: u32| #[trigger] add_new(s, xs).contains(x) ==> s.contains(x) || xs.contains(x),
    decreases xs.len(),
{
    if xs.len() > 0 {
        let before = add_new(s, xs.drop_last());
        lemma_add_new(s, xs.drop_last());
        assert forall|x: u32| #[trigger] xs.contains(x) implies add_new(s, xs).contains(x) by {
            let i = choose|i: int| 0 <= i < xs.len() && xs[i] == x;
            if i < xs.len() - 1 {
                assert(xs.drop_last()[i] == x);
                assert(xs.drop_last().contains(x));
                let j = choose|j: int| 0 <= j < before.len() && before[j] == x;
                assert(add_new(s, xs)[j] == x);
            } else {
                if !before.contains(x) {
                    assert(add_new(s, xs)[before.len() as int] == x);
                }
            }
        }
        assert forall|x: u32| #[trigger] add_new(s, xs).contains(x) implies s.contains(x) || xs.contains(x) by {
            let j = choose|j: int| 0 <= j < add_new(s, xs).len() && add_new(s, xs)[j] == x;
            if j < before.len() {
                assert(before[j] == x);
                assert(before.contains(x));
                if xs.drop_last().contains(x) {
                    let i = choose|i: int| 0 <= i < xs.drop_last().len() && xs.drop_last()[i] == x;
                    assert(xs[i] == x);
                }
            } else {
                assert(xs[xs.len() - 1] == x);
            }
        }
    }
}

proof fn lemma_add_icons(s: Seq<u32>, fonts: Seq<Seq<u8>>, k: nat)
    requires
        no_dups(s),
    ensures
        no_dups(add_icons(s, fonts, k)),
        s.is_prefix_of(add_icons(s, fonts, k)),
    decreases k,
{
    if k > 0 {
        lemma_add_icons(s, fonts, (k - 1) as nat);
        lemma_add_new(add_icons(s, fonts, (k - 1) as nat), icon_hits(fonts[k - 1], ICON_COUNT as nat));
    }
}

/// An atlas holds each code point once, and holds every ASCII code, every
/// extra code point and every ligature.
pub proof fn lemma_codepoints(fonts: Seq<Seq<u8>>, extra: Seq<u32>)
    ensures
        no_dups(spec_codepoints(fonts, extra)),
        forall|c: u32| c < 128 ==> #[trigger] spec_codepoints(fonts, extra).contains(c),
        forall|c: u32| #[trigger] extra.contains(c) ==> spec_codepoints(fonts, extra).contains(c),
        forall|c: u32| #[trigger] ligature_points().contains(c) ==> spec_codepoints(fonts, extra).contains(c),
{
    let ascii = Seq::new(128, |i: int| i as u32);
    let s1 = add_new(ascii, extra);
    let s2 = add_new(s1, ligature_points());
    let all = spec_codepoints(fonts, extra);
    lemma_add_new(ascii, extra);
    lemma_add_new(s1, ligature_points());
    lemma_add_icons(s2, fonts, fonts.len());
    assert forall|c: u32| c < 128 implies #[trigger] all.contains(c) by {
        assert(ascii[c as int] == c);
        assert(s1[c as int] == c);
        assert(s2[c as int] == c);
        assert(all[c as int] == c);
    }
    assert forall|c: u32| #[trigger] extra.contains(c) implies all.contains(c) by {
        let j = choose|j: int| 0 <= j < s1.len() && s1[j] == c;
        assert(s2[j] == c);
        assert(all[j] == c);
    }
    assert forall|c: u32| #[trigger] ligature_points().contains(c) implies all.contains(c) by {
        let j = choose|j: int| 0 <= j < s2.len() && s2[j] == c;
        assert(all[j] == c);
    }
}

/// `first_font` picks a font of the chain.
proof fn lemma_first_font(fonts: Seq<Seq<u8>>, advs: Seq<usize>, c: char, fi: int)
    requires
        fi >= 0,
    ensures
        first_font(fonts, advs, c, fi) matches Some(f) ==> fi <= f < fonts.len(),
    decreases fonts.len() - fi,
{
    if fi < fonts.len() && font_glyph_index(fonts[fi], c) == 0 {
        lemma_first_font(fonts, advs, c, fi + 1);
    }
}

/// A plan stores each glyph under a different code point of `cps` (when
/// `cps` repeats none), from a font of the chain.
pub proof fn lemma_plan(fonts: Seq<Seq<u8>>, cps: Seq<u32>, advances: Seq<Seq<usize>>, n: nat)
    requires
        n <= cps.len(),
        no_dups(cps),
    ensures
        distinct_cps(spec_plan(fonts, cps, advances, n)),
        forall|k: int|
            0 <= k < spec_plan(fonts, cps, advances, n).len() ==> {
                &&& (#[trigger] spec_plan(fonts, cps, advances, n)[k]).font_idx < fonts.len()
                &&& cps.take(n as int).contains(spec_plan(fonts, cps, advances, n)[k].cp)
            },
    decreases n,
{
    if n > 0 {
        let before = spec_plan(fonts, cps, advances, (n - 1) as nat);
        lemma_plan(fonts, cps, advances, (n - 1) as nat);
        let cp = cps[n - 1];
        lemma_first_font(fonts, advances[2 * (n - 1)], cp as char, 0);
        lemma_first_font(fonts, advances[2 * (n - 1) + 1], spec_fallback(cp) as char, 0);
        assert forall|k: int| 0 <= k < before.len() implies (#[trigger] before[k]).cp != cp && cps.take(n as int).contains(
            before[k].cp,
        ) by {
            let j = choose|j: int| 0 <= j < n - 1 && #[trigger] cps.take(n - 1)[j] == before[k].cp;
            assert(cps[j] == before[k].cp);
            assert(cps.take(n as int)[j] == before[k].cp);
        }
        assert(cps.take(n as int)[n - 1] == cp);
    }
}

// ─── Baking ─────────────────────────────────────────────────────────────────

/// The 256 blends of `fg` over `bg`, indexed by coverage.
pub open spec fn spec_lut<P: PixelFormat>(fg: P, bg: P) -> Seq<P> {
    Seq::new(256, |a: int| blend_pixel(fg, bg, a as u8))
}

/// Precomputes the blend of `fg` over `bg` for every coverage value.
fn build_lut<P: PixelFormat>(fg: P, bg: P) -> (lut: Vec<P>)
    ensures
        lut@ == spec_lut(fg, bg),
{
    let (fr, fgr, fb) = fg.to_rgb();
    let (br, bgr, bb) = bg.to_rgb();
    let (fr, fgr, fb) = (fr as u32, fgr as u32, fb as u32);
    let (br, bgr, bb) = (br as u32, bgr as u32, bb as u32);
    let mut lut: Vec<P> = Vec::new();
    let mut a: u32 = 0;
    while a < 256
        invariant
            a <= 256,
            (fr as u8, fgr as u8, fb as u8) == fg.spec_to_rgb(),
            (br as u8, bgr as u8, bb as u8) == bg.spec_to_rgb(),
            fr <= 255,
            fgr <= 255,
            fb <= 255,
            br <= 255,
            bgr <= 255,
            bb <= 255,
            lut@ == spec_lut(fg, bg).take(a as int),
        decreases 256 - a,
    {
        let r = blend_u32(fr, br, a);
        let g = blend_u32(fgr, bgr, a);
        let b = blend_u32(fb, bb, a);
        lut.push(P::from_rgb(r as u8, g as u8, b as u8));
        a = a + 1;
        assert(lut@ =~= spec_lut(fg, bg).take(a as int));
    }
    lut
}

/// How far below the top of the cell a glyph's bitmap starts, so that all
/// glyphs share the baseline `ascent` pixels below the top: the distance
/// from the baseline up to the bitmap's top edge is `height + ymin`. No
/// offset without line metrics, and never a negative one.
pub open spec fn spec_y_offset(ascent: Option<i32>, height: usize, ymin: i32) -> int {
    match ascent {
        Some(a) => {
            let top = a - height - ymin;
            if top > 0 {
                top
            } else {
                0
            }
        },
        None => 0,
    }
}

/// The row of the cell where a bitmap of `height` rows with bottom edge
/// `ymin` starts, for a font whose rounded ascent is `ascent`.
pub fn compute_y_offset(ascent: Option<i32>, height: usize, ymin: i32) -> (r: usize)
    ensures
        r == spec_y_offset(ascent, height, ymin),
{
    match ascent {
        Some(a) => {
            let top: i128 = a as i128 - height as i128 - ymin as i128;
            if top > 0 {
                top as usize
            } else {
                0
            }
        },
        None => 0,
    }
}

/// A rasterised glyph: its bitmap of `width` x `height` coverage bytes,
/// row-major, and the offsets of its left and bottom edges from the origin.
pub struct GlyphBitmap {
    pub xmin: i32,
    pub ymin: i32,
    pub width: usize,
    pub height: usize,
    pub alpha: Vec<u8>,
}

/// The colour of pixel `(x, y)` of a glyph cell: the blended coverage of
/// the bitmap where the bitmap (placed at `(x_off, y_off)`) covers the pixel,
/// the background (`lut[0]`) elsewhere.
pub open spec fn cell_color<P>(
    alpha: Seq<u8>,
    width: int,
    height: int,
    x_off: int,
    y_off: int,
    lut: Seq<P>,
    x: int,
    y: int,
) -> P {
    if x_off <= x < x_off + width && y_off <= y < y_off + height {
        lut[alpha[(y - y_off) * width + (x - x_off)] as int]
    } else {
        lut[0]
    }
}

/// The `gw` x `ch` cell of a glyph bitmap placed at `(x_off, y_off)`.
pub open spec fn glyph_cell<P>(
    alpha: Seq<u8>,
    width: int,
    height: int,
    x_off: int,
    y_off: int,
    lut: Seq<P>,
    gw: int,
    ch: int,
) -> Seq<P> {
    Seq::new((gw * ch) as nat, |i: int| cell_color(alpha, width, height, x_off, y_off, lut, i % gw, i / gw))
}

/// The cell baked for planned glyph `g` from its bitmap `b`, in a font whose
/// rounded ascent is `ascent`: the bitmap starts at column `max(xmin, 0)`
/// and at the row that puts it on the common baseline.
pub open spec fn baked_cell<P>(g: GlyphInfo, b: GlyphBitmap, ascent: Option<i32>, lut: Seq<P>, ch: int) -> Seq<P> {
    glyph_cell(
        b.alpha@,
        b.width as int,
        b.height as int,
        if b.xmin > 0 {
            b.xmin as int
        } else {
            0
        },
        spec_y_offset(ascent, b.height, b.ymin),
        lut,
        g.adv as int,
        ch,
    )
}

struct CellPaint<'a, P> {
    alpha: &'a [u8],
    width: usize,
    height: usize,
    x_off: usize,
    y_off: usize,
    lut: &'a [P],
}

impl<'a, P: Copy> Paint<P> for CellPaint<'a, P> {
    closed spec fn color(&self, w: int, h: int, x: int, y: int) -> P {
        cell_color(
            self.alpha@,
            self.width as int,
            self.height as int,
            self.x_off as int,
            self.y_off as int,
            self.lut@,
            x,
            y,
        )
    }

    closed spec fn paints(&self, w: int, h: int) -> bool {
        &&& self.lut@.len() == 256
        &&& self.alpha@.len() >= self.width * self.height
    }

    fn color_at(&self, w: usize, h: usize, x: usize, y: usize) -> (c: P) {
        if x >= self.x_off && x - self.x_off < self.width && y >= self.y_off && y - self.y_off < self.height {
            let (dy, dx) = (y - self.y_off, x - self.x_off);
            assert(dy * self.width + dx < self.width * self.height) by (nonlinear_arith)
                requires
                    dy < self.height,
                    dx < self.width,
            ;
            let _len = self.alpha.len();
            self.lut[self.alpha[dy * self.width + dx] as usize]
        } else {
            self.lut[0]
        }
    }
}

/// Where the cell of planned glyph `k` starts in the buffer: after the cells
/// of all glyphs before it.
pub open spec fn plan_offset(plan: Seq<GlyphInfo>, ch: int, k: int) -> int
    decreases k,
{
    if k <= 0 {
        0
    } else {
        plan_offset(plan, ch, k - 1) + plan[k - 1].adv * ch
    }
}

/// The last planned glyph among the first `k` stored under `cp`.
pub open spec fn find_cp(plan: Seq<GlyphInfo>, cp: u32, k: int) -> Option<int>
    decreases k,
{
    if k <= 0 {
        None
    } else if plan[k - 1].cp == cp {
        Some(k - 1)
    } else {
        find_cp(plan, cp, k - 1)
    }
}

pub proof fn lemma_plan_offset_mono(plan: Seq<GlyphInfo>, ch: int, i: int, j: int)
    requires
        0 <= i <= j,
        ch >= 0,
    ensures
        0 <= plan_offset(plan, ch, i) <= plan_offset(plan, ch, j),
    decreases j - i,
{
    if i < j {
        lemma_plan_offset_mono(plan, ch, i, j - 1);
        assert(plan[j - 1].adv * ch >= 0) by (nonlinear_arith)
            requires
                ch >= 0,
        ;
    } else {
        lemma_plan_offset_nonneg(plan, ch, i);
    }
}

proof fn lemma_plan_offset_nonneg(plan: Seq<GlyphInfo>, ch: int, k: int)
    requires
        ch >= 0,
    ensures
        plan_offset(plan, ch, k) >= 0,
    decreases k,
{
    if k > 0 {
        lemma_plan_offset_nonneg(plan, ch, k - 1);
        assert(plan[k - 1].adv * ch >= 0) by (nonlinear_arith)
            requires
                ch >= 0,
        ;
    }
}

pub proof fn lemma_find_cp_range(plan: Seq<GlyphInfo>, cp: u32, k: int)
    ensures
        find_cp(plan, cp, k) matches Some(j) ==> 0 <= j < k && plan[j].cp == cp,
    decreases k,
{
    if k > 0 {
        lemma_find_cp_range(plan, cp, k - 1);
    }
}

/// No two planned glyphs are stored under the same code point.
pub open spec fn distinct_cps(plan: Seq<GlyphInfo>) -> bool {
    forall|i: int, j: int| 0 <= i < j < plan.len() ==> plan[i].cp != plan[j].cp
}

/// With distinct code points, glyph `k` is the one stored under its code point.
pub proof fn lemma_find_own(plan: Seq<GlyphInfo>, k: int, n: int)
    requires
        distinct_cps(plan),
        0 <= k < n <= plan.len(),
    ensures
        find_cp(plan, plan[k].cp, n) == Some(k),
    decreases n,
{
    if n - 1 != k {
        lemma_find_own(plan, k, n - 1);
    }
}

/// An atlas of proportional glyphs over pixels of format `P`.
pub struct TtfAtlas<P> {
    cell_h: usize,
    ascii_adv: [usize; 128],
    ascii_off: [usize; 128],
    ext: HashMap<u32, (usize, usize)>,
    buf: Vec<P>,
}

impl<P: PixelFormat> TtfAtlas<P> {
    /// Height of every glyph cell.
    pub closed spec fn height(&self) -> nat {
        self.cell_h as nat
    }

    /// The pixels and advance width of the glyph stored under `cp`.
    pub closed spec fn glyph_at(&self, cp: u32) -> Option<(Seq<P>, nat)> {
        if cp < 128 {
            let gw = self.ascii_adv@[cp as int];
            if gw == 0 {
                None
            } else {
                let off = self.ascii_off@[cp as int];
                Some((self.buf@.subrange(off as int, off + gw * self.cell_h), gw as nat))
            }
        } else if self.ext@.contains_key(cp) {
            let (off, gw) = self.ext@[cp];
            Some((self.buf@.subrange(off as int, off + gw * self.cell_h), gw as nat))
        } else {
            None
        }
    }

    /// Every stored glyph lies inside the buffer.
    pub closed spec fn wf(&self) -> bool {
        &&& forall|cp: int|
            0 <= cp < 128 && #[trigger] self.ascii_adv@[cp] > 0 ==> self.ascii_off@[cp] + self.ascii_adv@[cp]
                * self.cell_h <= self.buf@.len()
        &&& forall|cp: u32|
            #[trigger] self.ext@.contains_key(cp) ==> self.ext@[cp].0 + self.ext@[cp].1 * self.cell_h
                <= self.buf@.len()
    }

    /// Lays the planned glyphs out side by side in one buffer, each in a cell
    /// `adv` pixels wide and `cell_h` high: the cell shows the glyph's bitmap
    /// `bitmaps[k]` from column `max(xmin, 0)` and from the row that puts it
    /// on the baseline of its font (rounded ascent `ascents[font_idx]`),
    /// coverage blended between `fg` and `bg`; the rest of the cell is `bg`.
    pub fn bake(
        plan: &[GlyphInfo],
        bitmaps: &[GlyphBitmap],
        ascents: &[Option<i32>],
        cell_h: usize,
        fg: P,
        bg: P,
    ) -> (a: Self)
        requires
            bitmaps@.len() == plan@.len(),
            distinct_cps(plan@),
            forall|k: int| 0 <= k < plan@.len() ==> #[trigger] plan@[k].font_idx < ascents@.len(),
            forall|k: int|
                0 <= k < bitmaps@.len() ==> #[trigger] bitmaps@[k].alpha@.len() >= bitmaps@[k].width
                    * bitmaps@[k].height,
            plan_offset(plan@, cell_h as int, plan@.len() as int) <= usize::MAX,
        ensures
            a.wf(),
            a.height() == cell_h,
            forall|cp: u32|
                #[trigger] a.glyph_at(cp) == match find_cp(plan@, cp, plan@.len() as int) {
                    Some(k) => if cp < 128 && plan@[k].adv == 0 {
                        None
                    } else {
                        Some(
                            (
                                baked_cell(
                                    plan@[k],
                                    bitmaps@[k],
                                    ascents@[plan@[k].font_idx as int],
                                    spec_lut(fg, bg),
                                    cell_h as int,
                                ),
                                plan@[k].adv as nat,
                            ),
                        )
                    },
                    None => None,
                },
    {
        let ghost ch = cell_h as int;
        let n = plan.len();
        let lut = build_lut(fg, bg);
        let mut total: usize = 0;
        let mut k: usize = 0;
        while k < n
            invariant
                k <= n == plan@.len(),
                plan_offset(plan@, ch, n as int) <= usize::MAX,
                ch == cell_h,
                total == plan_offset(plan@, ch, k as int),
            decreases n - k,
        {
            proof {
                lemma_plan_offset_mono(plan@, ch, k + 1, n as int);
            }
            total = total + plan[k].adv * cell_h;
            k = k + 1;
        }
        let mut buf = crate::pixbuf::filled(P::default_value(), total);
        let mut ascii_adv = [0usize; 128];
        let mut ascii_off = [0usize; 128];
        let mut ext: HashMap<u32, (usize, usize)> = HashMap::new();
        let mut ptr: usize = 0;
        let mut k: usize = 0;
        while k < n
            invariant
                k <= n == plan@.len() == bitmaps@.len(),
                ch == cell_h,
                lut@ == spec_lut(fg, bg),
                distinct_cps(plan@),
                forall|j: int| 0 <= j < plan@.len() ==> #[trigger] plan@[j].font_idx < ascents@.len(),
                forall|j: int|
                    0 <= j < bitmaps@.len() ==> #[trigger] bitmaps@[j].alpha@.len() >= bitmaps@[j].width
                        * bitmaps@[j].height,
                plan_offset(plan@, ch, n as int) <= usize::MAX,
                total == plan_offset(plan@, ch, n as int),
                buf@.len() == total,
                ptr == plan_offset(plan@, ch, k as int),
                forall|j: int|
                    0 <= j < k ==> #[trigger] buf@.subrange(
                        plan_offset(plan@, ch, j),
                        plan_offset(plan@, ch, j) + plan@[j].adv * ch,
                    ) == baked_cell(plan@[j], bitmaps@[j], ascents@[plan@[j].font_idx as int], lut@, ch),
                forall|cp: int|
                    0 <= cp < 128 ==> #[trigger] ascii_adv@[cp] == match find_cp(plan@, cp as u32, k as int) {
                        Some(j) => plan@[j].adv,
                        None => 0,
                    },
                forall|cp: int|
                    0 <= cp < 128 ==> #[trigger] ascii_off@[cp] == match find_cp(plan@, cp as u32, k as int) {
                        Some(j) => plan_offset(plan@, ch, j) as usize,
                        None => 0,
                    },
                forall|cp: u32|
                    #[trigger] ext@.contains_key(cp) <==> (cp >= 128 && find_cp(plan@, cp, k as int) is Some),
                forall|cp: u32|
                    #[trigger] ext@.contains_key(cp) ==> ext@[cp] == (
                        plan_offset(plan@, ch, find_cp(plan@, cp, k as int)->0) as usize,
                        plan@[find_cp(plan@, cp, k as int)->0].adv,
                    ),
            decreases n - k,
        {
            let g = plan[k];
            let b = &bitmaps[k];
            let gw = g.adv;
            proof {
                lemma_plan_offset_mono(plan@, ch, k + 1, n as int);
                lemma_plan_offset_mono(plan@, ch, k as int, k + 1);
            }
            let cell = gw * cell_h;
            if g.cp < 128 {
                ascii_adv[g.cp as usize] = gw;
                ascii_off[g.cp as usize] = ptr;
            } else {
                ext.insert(g.cp, (ptr, gw));
            }
            let x_off: usize = if b.xmin > 0 {
                b.xmin as usize
            } else {
                0
            };
            let y_off = compute_y_offset(ascents[g.font_idx], b.height, b.ymin);
            let paint = CellPaint {
                alpha: b.alpha.as_slice(),
                width: b.width,
                height: b.height,
                x_off,
                y_off,
                lut: lut.as_slice(),
            };
            let ghost before = buf@;
            paint_block(buf.as_mut_slice(), ptr, gw, cell_h, &paint);
            proof {
                let cellv = baked_cell(plan@[k as int], bitmaps@[k as int], ascents@[plan@[k as int].font_idx as int], lut@, ch);
                assert(painted(paint, gw as int, ch) =~= cellv);
                assert forall|j: int| 0 <= j < k + 1 implies #[trigger] buf@.subrange(
                    plan_offset(plan@, ch, j),
                    plan_offset(plan@, ch, j) + plan@[j].adv * ch,
                ) == baked_cell(plan@[j], bitmaps@[j], ascents@[plan@[j].font_idx as int], lut@, ch) by {
                    if j < k {
                        lemma_plan_offset_mono(plan@, ch, j + 1, k as int);
                        lemma_plan_offset_mono(plan@, ch, 0, j);
                        assert(buf@.subrange(plan_offset(plan@, ch, j), plan_offset(plan@, ch, j) + plan@[j].adv * ch)
                            =~= before.subrange(plan_offset(plan@, ch, j), plan_offset(plan@, ch, j) + plan@[j].adv * ch));
                    } else {
                        assert(buf@.subrange(ptr as int, ptr + gw * ch) =~= cellv);
                    }
                }
                assert forall|cp: u32| #[trigger] find_cp(plan@, cp, k + 1) == if cp == g.cp {
                    Some(k as int)
                } else {
                    find_cp(plan@, cp, k as int)
                } by {}
            }
            ptr = ptr + cell;
            k = k + 1;
        }
        let a = TtfAtlas { cell_h, ascii_adv, ascii_off, ext, buf };
        proof {
            assert forall|cp: u32| #[trigger] a.glyph_at(cp) == match find_cp(plan@, cp, n as int) {
                Some(k) => if cp < 128 && plan@[k].adv == 0 {
                    None
                } else {
                    Some(
                        (
                            baked_cell(plan@[k], bitmaps@[k], ascents@[plan@[k].font_idx as int], spec_lut(fg, bg), ch),
                            plan@[k].adv as nat,
                        ),
                    )
                },
                None => None,
            } by {
                lemma_find_cp_range(plan@, cp, n as int);
                if let Some(j) = find_cp(plan@, cp, n as int) {
                    lemma_plan_offset_mono(plan@, ch, j + 1, n as int);
                    lemma_plan_offset_mono(plan@, ch, 0, j);
                    if cp < 128 {
                        assert(a.ascii_adv@[cp as int] == plan@[j].adv);
                    } else {
                        assert(a.ext@.contains_key(cp));
                    }
                } else {
                    if cp < 128 {
                        assert(a.ascii_adv@[cp as int] == 0);
                    } else {
                        assert(!a.ext@.contains_key(cp));
                    }
                }
            }
            assert forall|cp: int| 0 <= cp < 128 && #[trigger] a.ascii_adv@[cp] > 0 implies a.ascii_off@[cp]
                + a.ascii_adv@[cp] * a.cell_h <= a.buf@.len() by {
                lemma_find_cp_range(plan@, cp as u32, n as int);
                let j = find_cp(plan@, cp as u32, n as int)->0;
                lemma_plan_offset_mono(plan@, ch, j + 1, n as int);
                lemma_plan_offset_mono(plan@, ch, 0, j);
            }
            assert forall|cp: u32| #[trigger] a.ext@.contains_key(cp) implies a.ext@[cp].0 + a.ext@[cp].1 * a.cell_h
                <= a.buf@.len() by {
                lemma_find_cp_range(plan@, cp, n as int);
                let j = find_cp(plan@, cp, n as int)->0;
                lemma_plan_offset_mono(plan@, ch, j + 1, n as int);
                lemma_plan_offset_mono(plan@, ch, 0, j);
            }
        }
        a
    }
}


// ─── Drawing ────────────────────────────────────────────────────────────────

impl<P: PixelFormat> TtfAtlas<P> {
    /// The atlas has a glyph for `c`.
    pub open spec fn has_glyph(&self, c: char) -> bool {
        self.glyph_at(c as u32) is Some
    }

    /// The glyph drawn at position `i` of `chars` and how many characters it
    /// stands for: `ffi`, `ffl`, `fi`, `fl` and `ff` (tried in that order)
    /// become their ligature when the atlas has it; any other character
    /// stands for itself.
    pub open spec fn ligature(&self, chars: Seq<char>, i: int) -> (char, nat) {
        let n = chars.len();
        if chars[i] == 'f' {
            if i + 2 < n && chars[i + 1] == 'f' && chars[i + 2] == 'i' && self.has_glyph('\u{FB03}') {
                ('\u{FB03}', 3)
            } else if i + 2 < n && chars[i + 1] == 'f' && chars[i + 2] == 'l' && self.has_glyph('\u{FB04}') {
                ('\u{FB04}', 3)
            } else if i + 1 < n && chars[i + 1] == 'i' && self.has_glyph('\u{FB01}') {
                ('\u{FB01}', 2)
            } else if i + 1 < n && chars[i + 1] == 'l' && self.has_glyph('\u{FB02}') {
                ('\u{FB02}', 2)
            } else if i + 1 < n && chars[i + 1] == 'f' && self.has_glyph('\u{FB00}') {
                ('\u{FB00}', 2)
            } else {
                (chars[i], 1)
            }
        } else {
            (chars[i], 1)
        }
    }

    /// The pen before the glyph at position `i`: a ligature pulls it back by
    /// 3 pixels (not below 0).
    pub open spec fn pen_before(&self, chars: Seq<char>, i: int, cx: int) -> int {
        if self.ligature(chars, i).1 > 1 {
            if cx >= 3 {
                cx - 3
            } else {
                0
            }
        } else {
            cx
        }
    }

    /// The buffer and pen after drawing `chars` from position `i` with the
    /// pen at `cx`: each glyph's rows are copied where they end inside the
    /// buffer, and the pen advances by the glyph's width; characters without
    /// a glyph are skipped.
    pub open spec fn draw_from(&self, fb: Seq<P>, stride: int, y: int, chars: Seq<char>, i: int, cx: int) -> (
        Seq<P>,
        int,
    )
        decreases chars.len() - i,
    {
        if i < 0 || i >= chars.len() {
            (fb, cx)
        } else {
            let (c, skip) = self.ligature(chars, i);
            let pen = self.pen_before(chars, i, cx);
            if skip == 0 {
                (fb, cx)
            } else {
                match self.glyph_at(c as u32) {
                    Some((src, gw)) => self.draw_from(
                        clip_rows(fb, stride, pen, y, src, gw as int, self.height()),
                        stride,
                        y,
                        chars,
                        i + skip,
                        pen + gw,
                    ),
                    None => self.draw_from(fb, stride, y, chars, i + skip, pen),
                }
            }
        }
    }

    /// A glyph drawn at `(pen, y)` keeps every index computation inside `usize`.
    pub open spec fn glyph_ok(&self, stride: int, pen: int, y: int, gw: int) -> bool {
        &&& pen + gw <= usize::MAX
        &&& y + self.height() <= usize::MAX
        &&& self.height() > 0 ==> (y + self.height() - 1) * stride + pen + gw <= usize::MAX
    }

    /// Drawing `chars` from position `i` with the pen at `cx` keeps every
    /// index computation inside `usize`.
    pub open spec fn draw_ok(&self, stride: int, y: int, chars: Seq<char>, i: int, cx: int) -> bool
        decreases chars.len() - i,
    {
        if i < 0 || i >= chars.len() {
            true
        } else {
            let (c, skip) = self.ligature(chars, i);
            let pen = self.pen_before(chars, i, cx);
            if skip == 0 {
                true
            } else {
                match self.glyph_at(c as u32) {
                    Some((_, gw)) => self.glyph_ok(stride, pen, y, gw as int) && self.draw_ok(
                        stride,
                        y,
                        chars,
                        i + skip,
                        pen + gw,
                    ),
                    None => self.draw_ok(stride, y, chars, i + skip, pen),
                }
            }
        }
    }

    /// The measured width of `chars` from position `i` on, `w` measured so
    /// far: each glyph adds its advance; a ligature then takes 3 pixels off
    /// (not below 0).
    pub open spec fn width_from(&self, chars: Seq<char>, i: int, w: int) -> int
        decreases chars.len() - i,
    {
        if i < 0 || i >= chars.len() {
            w
        } else {
            let (c, skip) = self.ligature(chars, i);
            let w1 = w + self.spec_char_width(c);
            let w2 = if skip > 1 {
                if w1 >= 3 {
                    w1 - 3
                } else {
                    0
                }
            } else {
                w1
            };
            if skip == 0 {
                w
            } else {
                self.width_from(chars, i + skip, w2)
            }
        }
    }

    /// Measuring `chars` from position `i` stays inside `usize`.
    pub open spec fn width_ok(&self, chars: Seq<char>, i: int, w: int) -> bool
        decreases chars.len() - i,
    {
        if i < 0 || i >= chars.len() {
            true
        } else {
            let (c, skip) = self.ligature(chars, i);
            let w1 = w + self.spec_char_width(c);
            let w2 = if skip > 1 {
                if w1 >= 3 {
                    w1 - 3
                } else {
                    0
                }
            } else {
                w1
            };
            w1 <= usize::MAX && (skip == 0 || self.width_ok(chars, i + skip, w2))
        }
    }

    /// The characters that the ligature `c` stands for: `ff`, `fi`, `fl`,
    /// `ffi`, `ffl` for U+FB00 to U+FB04; any other character stands for itself.
    pub open spec fn ligature_text(c: char) -> Seq<char> {
        if c == '\u{FB00}' {
            seq!['f', 'f']
        } else if c == '\u{FB01}' {
            seq!['f', 'i']
        } else if c == '\u{FB02}' {
            seq!['f', 'l']
        } else if c == '\u{FB03}' {
            seq!['f', 'f', 'i']
        } else if c == '\u{FB04}' {
            seq!['f', 'f', 'l']
        } else {
            seq![c]
        }
    }

    /// The five ligatures.
    pub open spec fn is_ligature(c: char) -> bool {
        '\u{FB00}' <= c <= '\u{FB04}'
    }

    /// A substituted glyph stands for exactly the characters it replaces: a
    /// single character stands for itself, a ligature (one the atlas has)
    /// for the characters it spells. And the longest ligature the atlas has
    /// that the text spells at `i` is the one taken.
    pub proof fn lemma_ligature_spells(&self, chars: Seq<char>, i: int)
        requires
            0 <= i < chars.len(),
        ensures
            ({
                let (c, k) = self.ligature(chars, i);
                &&& 1 <= k
                &&& i + k <= chars.len()
                &&& k == 1 ==> c == chars[i]
                &&& k > 1 ==> Self::is_ligature(c) && self.has_glyph(c) && chars.subrange(i, i + k)
                    == Self::ligature_text(c)
                &&& forall|l: char|
                    Self::is_ligature(l) && self.has_glyph(l) && i + Self::ligature_text(l).len() <= chars.len()
                        && #[trigger] chars.subrange(i, i + Self::ligature_text(l).len())
                        == Self::ligature_text(l) ==> k >= Self::ligature_text(l).len()
            }),
    {
        let (c, k) = self.ligature(chars, i);
        let n = chars.len();
        if k == 3 {
            assert(chars.subrange(i, i + 3) =~= Self::ligature_text(c));
        } else if k == 2 {
            assert(chars.subrange(i, i + 2) =~= Self::ligature_text(c));
        }
        assert forall|l: char|
            Self::is_ligature(l) && self.has_glyph(l) && i + Self::ligature_text(l).len() <= chars.len()
                && #[trigger] chars.subrange(i, i + Self::ligature_text(l).len())
                == Self::ligature_text(l) implies k >= Self::ligature_text(l).len() by {
            let t = Self::ligature_text(l);
            let sub = chars.subrange(i, i + t.len());
            assert(sub[0] == t[0]);
            assert(sub[1] == t[1]);
            assert(chars[i] == sub[0]);
            assert(chars[i + 1] == sub[1]);
            if t.len() == 3 {
                assert(sub[2] == t[2]);
                assert(chars[i + 2] == sub[2]);
            }
        }
    }

    /// Every ligature glyph the atlas has is at least 3 pixels wide, so the
    /// 3-pixel pull-back of a ligature never passes the pen before it.
    pub open spec fn ligatures_wide(&self) -> bool {
        forall|c: char|
            '\u{FB00}' <= c <= '\u{FB04}' && #[trigger] self.has_glyph(c) ==> self.spec_char_width(c) >= 3
    }

    /// Drawing from position `i` with the pen `w` pixels past `x` ends `x`
    /// pixels past the width measured from `i` with `w` measured so far.
    pub proof fn lemma_draw_width(&self, fb: Seq<P>, stride: int, y: int, chars: Seq<char>, i: int, x: int, w: int)
        requires
            x >= 3,
            w >= 0,
            self.ligatures_wide(),
        ensures
            self.draw_from(fb, stride, y, chars, i, x + w).1 == x + self.width_from(chars, i, w),
            self.width_from(chars, i, w) >= w,
        decreases chars.len() - i,
    {
        if 0 <= i < chars.len() {
            let (c, skip) = self.ligature(chars, i);
            let pen = self.pen_before(chars, i, x + w);
            let gw = self.spec_char_width(c) as int;
            if skip > 1 {
                assert('\u{FB00}' <= c <= '\u{FB04}' && self.has_glyph(c));
                assert(gw >= 3);
            }
            let w2 = if skip > 1 {
                w + gw - 3
            } else {
                w + gw
            };
            match self.glyph_at(c as u32) {
                Some((src, g)) => {
                    let f2 = clip_rows(fb, stride, pen, y, src, g as int, self.height());
                    assert(pen + g == x + w2);
                    self.lemma_draw_width(f2, stride, y, chars, i + skip, x, w2);
                },
                None => {
                    assert(pen == x + w2);
                    self.lemma_draw_width(fb, stride, y, chars, i + skip, x, w2);
                },
            }
        }
    }

    /// With no `f` in `chars`, no ligature forms: drawing from position `i`
    /// with the pen at `cx` ends `cx` plus the summed advances of
    /// `chars[i..]`, and measuring from `i` adds that same sum to `w`.
    pub proof fn lemma_draw_plain(&self, fb: Seq<P>, stride: int, y: int, chars: Seq<char>, i: int, cx: int, w: int)
        requires
            0 <= i <= chars.len(),
            forall|j: int| 0 <= j < chars.len() ==> chars[j] != 'f',
        ensures
            self.draw_from(fb, stride, y, chars, i, cx).1 == cx + sum_of(
                chars.subrange(i, chars.len() as int),
                |c: char| self.spec_char_width(c),
            ),
            self.width_from(chars, i, w) == w + sum_of(
                chars.subrange(i, chars.len() as int),
                |c: char| self.spec_char_width(c),
            ),
        decreases chars.len() - i,
    {
        let f = |c: char| self.spec_char_width(c);
        let rest = chars.subrange(i, chars.len() as int);
        if i < chars.len() {
            assert(chars[i] != 'f');
            assert(self.ligature(chars, i) == (chars[i], 1nat));
            crate::truetype::lemma_sum_of_first(rest, f);
            assert(rest.subrange(1, rest.len() as int) =~= chars.subrange(i + 1, chars.len() as int));
            assert(rest[0] == chars[i]);
            let gw = self.spec_char_width(chars[i]) as int;
            match self.glyph_at(chars[i] as u32) {
                Some((src, g)) => {
                    let f2 = clip_rows(fb, stride, cx, y, src, g as int, self.height());
                    self.lemma_draw_plain(f2, stride, y, chars, i + 1, cx + g, w + gw);
                },
                None => {
                    self.lemma_draw_plain(fb, stride, y, chars, i + 1, cx, w + gw);
                },
            }
        } else {
            assert(rest =~= Seq::<char>::empty());
        }
    }

    /// The pixels of the glyph for `c` and its advance width, when the atlas has one.
    pub(crate) fn glyph_pixels(&self, c: char) -> (r: Option<(&[P], usize)>)
        requires
            self.wf(),
        ensures
            match (r, self.glyph_at(c as u32)) {
                (Some((s, gw)), Some((t, w))) => s@ == t && gw == w && s@.len() == gw * self.height(),
                (None, None) => true,
                _ => false,
            },
    {
        let cp = c as u32;
        let _len = self.buf.len();
        if cp < 128 {
            let gw = self.ascii_adv[cp as usize];
            if gw == 0 {
                return None;
            }
            let off = self.ascii_off[cp as usize];
            assert(self.ascii_adv@[cp as int] > 0);
            Some((slice_range(self.buf.as_slice(), off, off + gw * self.cell_h), gw))
        } else {
            match self.ext.get(&cp) {
                Some(e) => {
                    let (off, gw) = *e;
                    assert(self.ext@.contains_key(cp));
                    Some((slice_range(self.buf.as_slice(), off, off + gw * self.cell_h), gw))
                },
                None => None,
            }
        }
    }

    /// The glyph to draw at position `i` of `chars` and how many characters it covers.
    fn try_ligature(chars: &[char], i: usize, atlas: &Self) -> (r: (char, usize))
        requires
            atlas.wf(),
            i < chars@.len(),
        ensures
            r.0 == atlas.ligature(chars@, i as int).0,
            r.1 == atlas.ligature(chars@, i as int).1,
            1 <= r.1 <= 3,
    {
        let n = chars.len();
        if chars[i] == 'f' {
            if n - i > 2 && chars[i + 1] == 'f' && chars[i + 2] == 'i' && atlas.glyph_pixels('\u{FB03}').is_some() {
                return ('\u{FB03}', 3);
            }
            if n - i > 2 && chars[i + 1] == 'f' && chars[i + 2] == 'l' && atlas.glyph_pixels('\u{FB04}').is_some() {
                return ('\u{FB04}', 3);
            }
            if n - i > 1 && chars[i + 1] == 'i' && atlas.glyph_pixels('\u{FB01}').is_some() {
                return ('\u{FB01}', 2);
            }
            if n - i > 1 && chars[i + 1] == 'l' && atlas.glyph_pixels('\u{FB02}').is_some() {
                return ('\u{FB02}', 2);
            }
            if n - i > 1 && chars[i + 1] == 'f' && atlas.glyph_pixels('\u{FB00}').is_some() {
                return ('\u{FB00}', 2);
            }
        }
        (chars[i], 1)
    }
}

/// Blitting returns the pen after the text, `x` plus what `text_width`
/// measures, once the pen starts at least 3 pixels in and every ligature
/// glyph is at least 3 pixels wide (otherwise a ligature's pull-back is
/// clamped differently at the left edge than in the measured width).
pub proof fn lemma_ttf_blit_end<P: PixelFormat>(a: &TtfAtlas<P>, fb: Seq<P>, stride: nat, x: nat, y: nat, text: Seq<char>)
    requires
        x >= 3,
        a.ligatures_wide(),
    ensures
        a.spec_blit(fb, stride, x, y, text).1 == x + a.width_from(text, 0, 0),
{
    a.lemma_draw_width(fb, stride as int, y as int, text, 0, x as int, 0);
    let d = a.draw_from(fb, stride as int, y as int, text, 0, x as int);
    assert(a.spec_blit(fb, stride, x, y, text) == (d.0, d.1 as nat));
}

/// Without an `f` no ligature forms, and blitting then returns `x` plus
/// what `text_width` measures: the summed advance widths of the characters
/// (0 for a character without a glyph), wherever the pen starts.
pub proof fn lemma_ttf_blit_end_plain<P: PixelFormat>(a: &TtfAtlas<P>, fb: Seq<P>, stride: nat, x: nat, y: nat, text: Seq<char>)
    requires
        forall|j: int| 0 <= j < text.len() ==> text[j] != 'f',
    ensures
        a.spec_blit(fb, stride, x, y, text).1 == x + a.width_from(text, 0, 0),
        a.width_from(text, 0, 0) == sum_of(text, |c: char| a.spec_char_width(c)),
{
    a.lemma_draw_plain(fb, stride as int, y as int, text, 0, x as int, 0);
    assert(text.subrange(0, text.len() as int) =~= text);
    crate::render::lemma_sum_of_nonneg(text, |c: char| a.spec_char_width(c));
    let d = a.draw_from(fb, stride as int, y as int, text, 0, x as int);
    assert(a.spec_blit(fb, stride, x, y, text) == (d.0, d.1 as nat));
}

impl<P: PixelFormat> Renderer<P> for TtfAtlas<P> {
    open spec fn spec_cell_height(&self) -> nat {
        self.height()
    }

    open spec fn spec_char_width(&self, c: char) -> nat {
        match self.glyph_at(c as u32) {
            Some((_, w)) => w,
            None => 0,
        }
    }

    open spec fn can_blit(&self, len: nat, stride: nat, x: nat, y: nat, text: Seq<char>) -> bool {
        &&& self.wf()
        &&& self.draw_ok(stride as int, y as int, text, 0, x as int)
    }

    open spec fn spec_blit(&self, fb: Seq<P>, stride: nat, x: nat, y: nat, text: Seq<char>) -> (Seq<P>, nat) {
        let (f, cx) = self.draw_from(fb, stride as int, y as int, text, 0, x as int);
        (f, cx as nat)
    }

    open spec fn can_blit_char(&self, len: nat, stride: nat, x: nat, y: nat, c: char) -> bool {
        &&& self.wf()
        &&& match self.glyph_at(c as u32) {
            Some((_, gw)) => self.glyph_ok(stride as int, x as int, y as int, gw as int),
            None => true,
        }
    }

    open spec fn spec_blit_char(&self, fb: Seq<P>, stride: nat, x: nat, y: nat, c: char) -> (Seq<P>, nat) {
        match self.glyph_at(c as u32) {
            Some((src, gw)) => (clip_rows(fb, stride as int, x as int, y as int, src, gw as int, self.height()), x + gw),
            None => (fb, x),
        }
    }

    /// Draws `text` with ligatures; rows that would end past the buffer are skipped.
    fn blit(&self, fb: &mut [P], stride: usize, x: usize, y: usize, text: &str) -> (end: usize) {
        let ch = self.cell_h;
        let chars = chars_of(text);
        let ghost f0 = fb@;
        let ghost goal = self.draw_from(f0, stride as int, y as int, text@, 0, x as int);
        let mut cx = x;
        let mut i: usize = 0;
        while i < chars.len()
            invariant
                chars@ == text@,
                self.wf(),
                ch == self.cell_h,
                i <= chars@.len(),
                self.draw_ok(stride as int, y as int, text@, i as int, cx as int),
                self.draw_from(fb@, stride as int, y as int, text@, i as int, cx as int) == goal,
            decreases chars@.len() - i,
        {
            let (c, skip) = Self::try_ligature(chars.as_slice(), i, self);
            if skip > 1 {
                cx = cx.saturating_sub(3);
            }
            i = i + skip;
            match self.glyph_pixels(c) {
                Some((src, gw)) => {
                    proof {
                        assert(gw * ch == ch * gw) by (nonlinear_arith);
                    }
                    paste_clipped(fb, stride, cx, y, src, gw, ch);
                    cx = cx + gw;
                },
                None => {},
            }
        }
        cx
    }

    /// Draws one glyph (no ligature); rows that would end past the buffer are skipped.
    fn blit_char(&self, fb: &mut [P], stride: usize, x: usize, y: usize, ch: char) -> (end: usize) {
        let ch_h = self.cell_h;
        match self.glyph_pixels(ch) {
            Some((src, gw)) => {
                proof {
                    assert(gw * ch_h == ch_h * gw) by (nonlinear_arith);
                }
                paste_clipped(fb, stride, x, y, src, gw, ch_h);
                x + gw
            },
            None => x,
        }
    }

    fn cell_height(&self) -> (h: usize) {
        self.cell_h
    }

    #[verifier::spinoff_prover]
    fn char_width(&self, c: char) -> (w: usize) {
        let cp = c as u32;
        if cp < 128 {
            let w = self.ascii_adv[cp as usize];
            assert(w == self.spec_char_width(c));
            w
        } else {
            match self.ext.get(&cp) {
                Some(e) => {
                    assert(self.ext@.contains_key(cp) && self.ext@[cp] == *e);
                    assert(e.1 == self.spec_char_width(c));
                    e.1
                },
                None => {
                    assert(!self.ext@.contains_key(cp));
                    assert(0 == self.spec_char_width(c));
                    0
                },
            }
        }
    }

    /// Measuring with ligatures needs every partial sum to fit in `usize`.
    open spec fn text_width_ok(&self, text: Seq<char>) -> bool {
        &&& self.wf()
        &&& self.width_ok(text, 0, 0)
    }

    /// Sums the advances of the glyphs drawn for `text`, ligatures
    /// substituted, each ligature then taking 3 pixels off.
    fn text_width(&self, text: &str) -> (w: usize)
        ensures
            w == self.width_from(text@, 0, 0),
    {
        let chars = chars_of(text);
        let mut w: usize = 0;
        let mut i: usize = 0;
        while i < chars.len()
            invariant
                chars@ == text@,
                self.wf(),
                i <= chars@.len(),
                self.width_ok(text@, i as int, w as int),
                self.width_from(text@, i as int, w as int) == self.width_from(text@, 0, 0),
            decreases chars@.len() - i,
        {
            let (c, skip) = Self::try_ligature(chars.as_slice(), i, self);
            w = w + self.char_width(c);
            if skip > 1 {
                w = w.saturating_sub(3);
            }
            i = i + skip;
        }
        w
    }
}

} // verus!
