use imgrids::render::Renderer;
use imgrids::truetype::AbFace;
use imgrids::ttf::{candidates, collect_codepoints, compute_y_offset, plan_glyphs, FontFace, GlyphBitmap, GlyphInfo, TtfAtlas};
use imgrids::Rgb565;

const FG: Rgb565 = Rgb565(0xFFFF);
const BG: Rgb565 = Rgb565(0);

fn glyph(cp: u32, adv: usize) -> GlyphInfo {
    GlyphInfo { cp, render_cp: cp, font_idx: 0, adv }
}

fn solid(adv: usize) -> GlyphBitmap {
    GlyphBitmap { xmin: 0, ymin: 0, width: adv, height: 1, alpha: vec![255; adv] }
}

fn ligature_atlas() -> TtfAtlas<Rgb565> {
    let plan = [glyph('f' as u32, 2), glyph('i' as u32, 1), glyph(0xFB01, 2)];
    let bitmaps = [solid(2), solid(1), solid(2)];
    TtfAtlas::bake(&plan, &bitmaps, &[None], 1, FG, BG)
}

#[test]
fn candidates_try_the_ascii_stand_in() {
    assert_eq!(candidates(0x2212), [0x2212, 0x2D]);
    assert_eq!(candidates(0xB7), [0xB7, 0x2E]);
    assert_eq!(candidates(65), [65, 65]);
}

#[test]
fn y_offset_puts_glyph_on_baseline() {
    assert_eq!(compute_y_offset(Some(10), 3, 2), 5);
    assert_eq!(compute_y_offset(Some(10), 3, -2), 9);
    assert_eq!(compute_y_offset(Some(1), 3, 2), 0);
    assert_eq!(compute_y_offset(None, 3, 2), 0);
}

#[test]
fn unparsable_fonts_are_refused() {
    assert!(FontFace::parse(&[0, 1, 2, 3]).is_none());
    assert!(AbFace::parse(vec![0u8, 1, 2, 3]).is_none());
}

#[test]
fn codepoints_without_fonts() {
    let cps = collect_codepoints(&[], &[200, 65, 200]);
    assert_eq!(cps.len(), 128 + 1 + 5);
    assert_eq!(cps[65], 65);
    assert_eq!(cps[128], 200);
    assert_eq!(&cps[129..], &[0xFB00, 0xFB01, 0xFB02, 0xFB03, 0xFB04]);
    let ab = imgrids::truetype::collect_codepoints(&[], &[65, 300]);
    assert_eq!(ab.len(), 129);
    assert_eq!(ab[128], 300);
}

#[test]
fn plan_without_fonts_is_empty() {
    let cps = [65u32, 0x2212];
    let advances: Vec<Vec<usize>> = vec![vec![]; 4];
    assert!(plan_glyphs(&[], &cps, &advances).is_empty());
}

#[test]
fn baked_glyphs_have_their_advances() {
    let a = ligature_atlas();
    assert_eq!(a.cell_height(), 1);
    assert_eq!(a.char_width('f'), 2);
    assert_eq!(a.char_width('i'), 1);
    assert_eq!(a.char_width('\u{FB01}'), 2);
    assert_eq!(a.char_width('x'), 0);
}

#[test]
fn ligature_replaces_fi_and_pulls_pen_back() {
    let a = ligature_atlas();
    let mut fb = vec![Rgb565(9); 10];
    let end = a.blit(&mut fb, 10, 5, 0, "fi");
    assert_eq!(end, 4);
    assert_eq!(fb, vec![Rgb565(9), Rgb565(9), FG, FG, Rgb565(9), Rgb565(9), Rgb565(9), Rgb565(9), Rgb565(9), Rgb565(9)]);
}

#[test]
fn text_width_counts_ligatures() {
    let a = ligature_atlas();
    assert_eq!(a.text_width("if"), 3);
    assert_eq!(a.text_width("fi"), 0);
    assert_eq!(a.text_width("xx"), 0);
    assert_eq!(a.text_width("ffi"), 1);
}

#[test]
fn blit_skips_rows_past_the_buffer() {
    let a = ligature_atlas();
    let mut fb = vec![Rgb565(9); 3];
    let end = a.blit(&mut fb, 3, 2, 0, "f");
    assert_eq!(end, 4);
    assert_eq!(fb, vec![Rgb565(9); 3]);
    let end = a.blit_char(&mut fb, 3, 0, 0, 'i');
    assert_eq!(end, 1);
    assert_eq!(fb, vec![FG, Rgb565(9), Rgb565(9)]);
}

#[test]
fn baked_cell_places_bitmap_at_offsets() {
    let plan = [glyph('a' as u32, 3)];
    let bitmaps = [GlyphBitmap { xmin: 1, ymin: 0, width: 1, height: 1, alpha: vec![255] }];
    let a: TtfAtlas<Rgb565> = TtfAtlas::bake(&plan, &bitmaps, &[Some(2)], 2, FG, BG);
    let mut fb = vec![Rgb565(9); 6];
    let end = a.blit(&mut fb, 3, 0, 0, "a");
    assert_eq!(end, 3);
    assert_eq!(fb, vec![BG, BG, BG, BG, FG, BG]);
}

#[test]
fn blit_ends_at_x_plus_text_width() {
    let plan = [glyph('f' as u32, 2), glyph('i' as u32, 1), glyph(0xFB01, 4)];
    let bitmaps = [solid(2), solid(1), solid(4)];
    let a: TtfAtlas<Rgb565> = TtfAtlas::bake(&plan, &bitmaps, &[None], 1, FG, BG);
    for text in ["fi", "if", "ffi", "fif", "x"] {
        let mut fb = vec![Rgb565(9); 40];
        let end = a.blit(&mut fb, 40, 5, 0, text);
        assert_eq!(end, 5 + a.text_width(text));
    }
}

#[test]
fn zero_advance_glyphs_have_width_zero() {
    let plan = [glyph('a' as u32, 0), glyph(0x2212, 0), glyph('b' as u32, 2)];
    let bitmaps = [solid(0), solid(0), solid(2)];
    let a: TtfAtlas<Rgb565> = TtfAtlas::bake(&plan, &bitmaps, &[None], 1, FG, BG);
    assert_eq!(a.char_width('a'), 0);
    assert_eq!(a.char_width('\u{2212}'), 0);
    assert_eq!(a.char_width('b'), 2);
    let mut fb = vec![Rgb565(9); 4];
    assert_eq!(a.blit(&mut fb, 4, 0, 0, "a\u{2212}b"), 2);
    assert_eq!(fb, vec![FG, FG, Rgb565(9), Rgb565(9)]);
}

#[test]
fn blit_without_ligatures_ends_at_x_plus_text_width() {
    let a = ligature_atlas();
    for x in [0usize, 1, 2] {
        let mut fb = vec![Rgb565(9); 20];
        assert_eq!(a.blit(&mut fb, 20, x, 0, "iix"), x + a.text_width("iix"));
        assert_eq!(a.text_width("iix"), 2);
    }
}
