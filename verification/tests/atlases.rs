use imgrids::grid::chars::{CharsAtlas, FONT8X8};
use imgrids::grid::mono::{channels, mono_cell_width, MonoAtlas};
use imgrids::grid::shapes::{Shape, ShapesAtlas};
use imgrids::grid::tt::{tt_sizes_fit, TtAtlas, TtError};
use imgrids::grid::Renderer;

const FG: u16 = 0xFFFF;
const BG: u16 = 0x0000;

#[test]
fn shapes_cycle_by_code() {
    assert!(Shape::from_index(0) == Shape::Square);
    assert!(Shape::from_index(4) == Shape::Circle);
    assert!(Shape::from_index(131) == Shape::Triangle);
}

#[test]
fn shapes_square_has_quarter_margin() {
    let a = ShapesAtlas::new(8, FG, BG);
    let mut fb = vec![7u16; 64];
    a.draw(&mut fb, 8, 0, 0, "0");
    assert_eq!(fb[0], BG);
    assert_eq!(fb[1 * 8 + 2], BG);
    assert_eq!(fb[2 * 8 + 2], FG);
    assert_eq!(fb[5 * 8 + 5], FG);
    assert_eq!(fb[6 * 8 + 5], BG);
    assert_eq!(fb[5 * 8 + 6], BG);
}

#[test]
fn shapes_circle_includes_its_rim() {
    let a = ShapesAtlas::new(8, FG, BG);
    let mut fb = vec![7u16; 64];
    a.draw(&mut fb, 8, 0, 0, "1");
    assert_eq!(fb[4 * 8 + 4], FG);
    assert_eq!(fb[4 * 8 + 1], FG);
    assert_eq!(fb[4 * 8 + 0], BG);
    assert_eq!(fb[0], BG);
}

#[test]
fn shapes_triangle_contains_centre_not_corner() {
    let a = ShapesAtlas::new(8, FG, BG);
    let mut fb = vec![7u16; 64];
    a.draw(&mut fb, 8, 0, 0, "2");
    assert_eq!(fb[4 * 8 + 4], FG);
    assert_eq!(fb[0], BG);
    assert_eq!(fb[7 * 8 + 7], BG);
}

#[test]
fn shapes_draw_side_by_side_and_measure() {
    let a = ShapesAtlas::new(4, FG, BG);
    let mut fb = vec![7u16; 4 * 12];
    a.draw(&mut fb, 12, 0, 0, "000");
    assert_eq!(fb[1 * 12 + 1], FG);
    assert_eq!(fb[1 * 12 + 5], FG);
    assert_eq!(fb[1 * 12 + 9], FG);
    assert_eq!(fb[0], BG);
    assert_eq!(a.cell_height(), 4);
    assert_eq!(a.char_width('x'), 4);
    assert_eq!(a.text_width("abc"), 12);
}

#[test]
fn chars_font_table_has_letter_a() {
    assert_eq!(FONT8X8[0x41], [0x0C, 0x1E, 0x33, 0x33, 0x3F, 0x33, 0x33, 0x00]);
    assert_eq!(FONT8X8[0x20], [0; 8]);
}

#[test]
fn chars_draws_font_bits_at_natural_size() {
    let a = CharsAtlas::new(8, 8, FG, BG);
    let mut fb = vec![7u16; 64];
    a.draw(&mut fb, 8, 0, 0, "A");
    assert_eq!(&fb[0..8], &[BG, BG, FG, FG, BG, BG, BG, BG]);
    assert_eq!(&fb[32..40], &[FG, FG, FG, FG, FG, FG, BG, BG]);
    assert_eq!(&fb[56..64], &[BG; 8]);
}

#[test]
fn chars_scales_by_nearest_neighbour() {
    let a = CharsAtlas::new(16, 16, FG, BG);
    let mut fb = vec![7u16; 256];
    a.draw(&mut fb, 16, 0, 0, "A");
    assert_eq!(fb[4], FG);
    assert_eq!(fb[5], FG);
    assert_eq!(fb[3], BG);
    assert_eq!(fb[16 + 4], FG);
    assert_eq!(a.char_width('A'), 16);
    assert_eq!(a.cell_height(), 16);
}

#[test]
fn mono_cell_is_widest_advance() {
    assert_eq!(mono_cell_width(&[3, 7, 5]), 7);
    assert_eq!(mono_cell_width(&[]), 1);
    assert_eq!(mono_cell_width(&[0, 0]), 1);
}

#[test]
fn mono_channels_expand_rgb565() {
    assert_eq!(channels(0xFFFF, 0x0000), (0xF8, 0xFC, 0xF8, 0, 0, 0));
}

#[test]
fn mono_bakes_coverage_cells() {
    let mut alphas = vec![vec![0u8; 2]; 128];
    alphas[65] = vec![255, 0];
    let a = MonoAtlas::bake(2, 1, &alphas, FG, BG);
    let mut fb = vec![7u16; 4];
    a.draw(&mut fb, 4, 0, 0, "AB");
    assert_eq!(fb, vec![FG, BG, BG, BG]);
    assert_eq!(a.char_width('Q'), 2);
}

fn tt_file(glyph: &[u8]) -> Vec<u8> {
    let mut d = vec![2u8, 0, 0, 0];
    for code in 0..128 {
        if code == 65 {
            d.push(1);
            d.push(0);
        } else {
            d.push(0);
            d.push(0);
        }
    }
    d.extend_from_slice(glyph);
    d
}

#[test]
fn tt_parses_and_draws() {
    let a = match TtAtlas::parse(&tt_file(&[255, 0]), FG, BG) {
        Ok(a) => a,
        Err(_) => panic!("a complete file must parse"),
    };
    assert_eq!(a.cell_height(), 2);
    assert_eq!(a.char_width('A'), 1);
    assert_eq!(a.char_width('B'), 0);
    assert_eq!(a.char_width('é'), 0);
    assert_eq!(a.text_width("AAB"), 2);
    let mut fb = vec![7u16; 4];
    a.draw(&mut fb, 2, 0, 0, "BA");
    assert_eq!(fb, vec![FG, 7, BG, 7]);
}

#[test]
fn tt_truncated_header() {
    assert!(matches!(TtAtlas::parse(&[1, 2], FG, BG), Err(TtError::TruncatedHeader)));
    assert_eq!(TtError::TruncatedHeader.message(), "tt: truncated header");
}

#[test]
fn tt_truncated_widths() {
    let d = vec![2u8, 0, 0, 0, 1, 0];
    assert!(matches!(TtAtlas::parse(&d, FG, BG), Err(TtError::TruncatedWidths)));
    assert_eq!(TtError::TruncatedWidths.message(), "tt: truncated widths");
}

#[test]
fn tt_truncated_glyph() {
    assert!(matches!(TtAtlas::parse(&tt_file(&[255]), FG, BG), Err(TtError::TruncatedGlyph)));
    assert_eq!(TtError::TruncatedGlyph.message(), "tt: truncated glyph");
}

#[test]
fn tt_blends_coverage() {
    let a = match TtAtlas::parse(&tt_file(&[128, 255]), 0xF800, BG) {
        Ok(a) => a,
        Err(_) => panic!("a complete file must parse"),
    };
    let mut fb = vec![0u16; 2];
    a.draw(&mut fb, 1, 0, 0, "A");
    let r = (0xF8u32 * 128) / 255;
    assert_eq!(fb[0], ((r as u16) >> 3) << 11);
    assert_eq!(fb[1], 0xF800);
}

#[test]
fn font_file_sizes_fit() {
    assert!(tt_sizes_fit(&[1, 2, 3]));
    let mut data = vec![0u8; 260];
    data[0] = 2;
    data[4] = 3;
    assert!(tt_sizes_fit(&data));
    let big = vec![0xFFu8; 260];
    assert_eq!(tt_sizes_fit(&big), usize::BITS > 32);
}
