use imgrids::color::{argb, rgb, BLACK, GRAY, RED, SLATE, WHITE};
use imgrids::icon::{blend_u32, blit_alpha_buf, Icon};
use imgrids::{PixelFormat, Rgb565, Rgb888, Rgba8888};

#[test]
fn rgb565_packs_top_bits() {
    assert_eq!(Rgb565::from_rgb(255, 0, 0).0, 0xF800);
    assert_eq!(Rgb565::from_rgb(0, 255, 0).0, 0x07E0);
    assert_eq!(Rgb565::from_rgb(0, 0, 255).0, 0x001F);
    assert_eq!(Rgb565::from_rgb(0x12, 0x34, 0x56).0, (0x12 >> 3) << 11 | (0x34 >> 2) << 5 | (0x56 >> 3));
}

#[test]
fn rgb565_unpacks_to_expanded_channels() {
    assert_eq!(Rgb565(0xFFFF).to_rgb(), (0xF8, 0xFC, 0xF8));
    assert_eq!(Rgb565(0x0000).to_rgb(), (0, 0, 0));
    let (r, g, b) = Rgb565::from_rgb(0xE6, 0x39, 0x46).to_rgb();
    assert_eq!((r, g, b), (0xE6 & 0xF8, 0x39 & 0xFC, 0x46 & 0xF8));
}

#[test]
fn rgb888_round_trips() {
    let p = Rgb888::from_rgb(0x12, 0x34, 0x56);
    assert_eq!(p.0, 0x123456);
    assert_eq!(p.to_rgb(), (0x12, 0x34, 0x56));
}

#[test]
fn rgba8888_is_little_endian_with_opaque_alpha() {
    let p = Rgba8888::from_rgb(0x12, 0x34, 0x56);
    assert_eq!(p.0, 0xFF563412);
    assert_eq!(p.to_rgb(), (0x12, 0x34, 0x56));
}

#[test]
fn pixel_format_trait_matches_inherent_methods() {
    let p = <Rgb565 as PixelFormat>::from_rgb(10, 20, 30);
    assert_eq!(p, Rgb565::from_rgb(10, 20, 30));
    assert_eq!(<Rgb888 as PixelFormat>::to_rgb(Rgb888(0xABCDEF)), (0xAB, 0xCD, 0xEF));
    assert_eq!(<Rgba8888 as PixelFormat>::default_value(), Rgba8888(0));
}

#[test]
fn argb_packs_channels() {
    assert_eq!(argb(0x80, 0x11, 0x22, 0x33), 0x80112233);
    assert_eq!(rgb(0xE6, 0x39, 0x46), 0xFFE63946);
}

#[test]
fn palette_matches_rgb() {
    assert_eq!(RED, rgb(0xE6, 0x39, 0x46));
    assert_eq!(WHITE, rgb(0xFF, 0xFF, 0xFF));
    assert_eq!(GRAY, rgb(0xAA, 0xAA, 0xAA));
    assert_eq!(SLATE, rgb(0x0F, 0x15, 0x35));
    assert_eq!(BLACK, argb(0, 0, 0, 0));
}

#[test]
fn blend_endpoints_and_midpoint() {
    assert_eq!(blend_u32(200, 100, 0), 100);
    assert_eq!(blend_u32(200, 100, 255), 200);
    assert_eq!(blend_u32(255, 0, 128), (255 * 128) / 255);
}

#[test]
fn blit_alpha_blends_between_colours() {
    const ALPHA: [u8; 4] = [0, 255, 255, 0];
    let icon = Icon { x: 1, y: 0, w: 2, h: 2, alpha: &ALPHA };
    let mut buf = vec![Rgb565(7); 6];
    blit_alpha_buf(&mut buf, 3, &icon, Rgb565(0xFFFF), Rgb565(0));
    assert_eq!(buf, vec![Rgb565(7), Rgb565(0), Rgb565(0xFFFF), Rgb565(7), Rgb565(0xFFFF), Rgb565(0)]);
}

#[test]
fn blit_alpha_skips_rows_past_the_buffer() {
    const ALPHA: [u8; 4] = [255, 255, 255, 255];
    let icon = Icon { x: 0, y: 1, w: 2, h: 2, alpha: &ALPHA };
    let mut buf = vec![Rgb565(1); 4];
    blit_alpha_buf(&mut buf, 2, &icon, Rgb565(0xFFFF), Rgb565(0));
    assert_eq!(buf, vec![Rgb565(1), Rgb565(1), Rgb565(0xFFFF), Rgb565(0xFFFF)]);
}
