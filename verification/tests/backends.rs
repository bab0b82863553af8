use imgrids::buf::{push_decimal, BufBackend};
use imgrids::icon::Icon;
use imgrids::raster::{BitmapFont, RasterAtlas};
use imgrids::render::{fit_count, Backend, Renderer};
use imgrids::surface::{DirtyRect, ShadowBuffer, WebBuffer};
use imgrids::input::InputEvent;
use imgrids::Rgb565;

type A = RasterAtlas<Rgb565>;

const BITS: [u8; 4] = [0b01, 0b10, 0b11, 0b00];
const TINY: BitmapFont = BitmapFont { font_w: 2, font_h: 2, glyphs: 2, bitmap: &BITS };

fn atlas() -> A {
    let font: &'static BitmapFont = &TINY;
    RasterAtlas::new(font, 2, 2, Rgb565(1), Rgb565(0))
}

#[test]
fn raster_blits_glyph_by_byte_modulo_count() {
    let a = atlas();
    let mut fb = vec![Rgb565(9); 8];
    let end = a.blit(&mut fb, 4, 0, 0, "AB");
    assert_eq!(end, 4);
    assert_eq!(fb, vec![Rgb565(1), Rgb565(1), Rgb565(1), Rgb565(0), Rgb565(0), Rgb565(0), Rgb565(0), Rgb565(1)]);
    assert_eq!(a.text_width("AB"), 4);
    assert_eq!(a.cell_height(), 2);
}

#[test]
fn raster_blit_char_draws_one_glyph() {
    let a = atlas();
    let mut fb = vec![Rgb565(9); 8];
    let end = a.blit_char(&mut fb, 4, 2, 0, 'B');
    assert_eq!(end, 4);
    assert_eq!(fb, vec![Rgb565(9), Rgb565(9), Rgb565(1), Rgb565(0), Rgb565(9), Rgb565(9), Rgb565(0), Rgb565(1)]);
}

#[test]
fn raster_empty_text_draws_nothing() {
    let a = atlas();
    let mut fb = vec![Rgb565(9); 8];
    assert_eq!(a.blit(&mut fb, 4, 3, 0, ""), 3);
    assert_eq!(fb, vec![Rgb565(9); 8]);
}

#[test]
fn fit_count_takes_characters_while_they_fit() {
    let a = atlas();
    assert_eq!(fit_count(&a, "abcd", 0, 5), 2);
    assert_eq!(fit_count(&a, "abcd", 0, 8), 4);
    assert_eq!(fit_count(&a, "abcd", 4, 5), 0);
    assert_eq!(fit_count(&a, "", 0, 0), 0);
}

#[test]
fn buf_backend_fills_counts_and_encodes() {
    let mut b: BufBackend<Rgb565> = BufBackend::new(2, 2);
    <BufBackend<Rgb565> as Backend<Rgb565, A>>::fill_rect(&mut b, 1, 0, 5, 1, Rgb565(0xF800));
    assert_eq!(b.pixels, vec![Rgb565(0), Rgb565(0xF800), Rgb565(0), Rgb565(0)]);
    assert_eq!(b.fill_rect_count, 1);
    let a = atlas();
    let end = b.blit_clipped(&a, 0, 0, "AAAA", 3);
    assert_eq!(end, 2);
    assert_eq!(b.blit_count, 1);
    let ppm = b.ppm();
    let mut expected = b"P6\n2 2\n255\n".to_vec();
    expected.extend_from_slice(&[0, 0, 0, 0, 0, 0, 0, 0, 0, 0, 0, 0]);
    assert_eq!(&ppm[..11], &expected[..11]);
    assert_eq!(ppm.len(), 11 + 12);
    b.reset_counts();
    assert_eq!((b.blit_count, b.fill_rect_count), (0, 0));
}

#[test]
fn buf_backend_clear_sets_every_pixel() {
    let mut b: BufBackend<Rgb565> = BufBackend::new(3, 1);
    <BufBackend<Rgb565> as Backend<Rgb565, A>>::clear(&mut b, Rgb565(5));
    assert_eq!(b.pixels, vec![Rgb565(5); 3]);
    let ppm = b.ppm();
    assert_eq!(&ppm[..11], b"P6\n3 1\n255\n");
}

#[test]
fn decimal_digits() {
    let mut out = Vec::new();
    push_decimal(&mut out, 0);
    push_decimal(&mut out, 480);
    assert_eq!(out, b"0480".to_vec());
}

#[test]
fn shadow_tracks_dirty_rectangle() {
    let mut s: ShadowBuffer<Rgb565> = ShadowBuffer::new(4, 3, 2);
    assert_eq!(s.pixels().len(), 4 * 66);
    assert_eq!(s.take_dirty(), None);
    <ShadowBuffer<Rgb565> as Backend<Rgb565, A>>::fill_rect(&mut s, 1, 0, 5, 1, Rgb565(3));
    assert_eq!(&s.pixels()[0..4], &[Rgb565(0), Rgb565(3), Rgb565(3), Rgb565(0)]);
    assert_eq!(s.take_dirty(), Some(DirtyRect { x0: 1, y0: 0, x1: 3, y1: 1 }));
    assert_eq!(s.take_dirty(), None);
}

#[test]
fn shadow_fill_outside_changes_nothing() {
    let mut s: ShadowBuffer<Rgb565> = ShadowBuffer::new(4, 3, 2);
    <ShadowBuffer<Rgb565> as Backend<Rgb565, A>>::fill_rect(&mut s, 3, 0, 2, 2, Rgb565(3));
    assert_eq!(s.take_dirty(), None);
    assert!(s.pixels().iter().all(|p| *p == Rgb565(0)));
}

#[test]
fn shadow_blit_marks_cell_and_gathers_rows() {
    let mut s: ShadowBuffer<Rgb565> = ShadowBuffer::new(4, 4, 4);
    let a = atlas();
    let end = s.blit(&a, 1, 1, "A");
    assert_eq!(end, 3);
    let r = match s.take_dirty() {
        Some(r) => r,
        None => panic!("a blit marks its cell dirty"),
    };
    assert_eq!(r, DirtyRect { x0: 1, y0: 1, x1: 3, y1: 3 });
    let rows = s.gather(r).to_vec();
    assert_eq!(rows, vec![Rgb565(1), Rgb565(1), Rgb565(0), Rgb565(0)]);
}

#[test]
fn shadow_clear_dirties_everything() {
    let mut s: ShadowBuffer<Rgb565> = ShadowBuffer::new(5, 4, 2);
    <ShadowBuffer<Rgb565> as Backend<Rgb565, A>>::clear(&mut s, Rgb565(2));
    assert_eq!(s.take_dirty(), Some(DirtyRect { x0: 0, y0: 0, x1: 4, y1: 2 }));
}

#[test]
fn shadow_blit_alpha_marks_icon_box() {
    const ALPHA: [u8; 1] = [255];
    let mut s: ShadowBuffer<Rgb565> = ShadowBuffer::new(4, 4, 4);
    let icon = Icon { x: 2, y: 3, w: 1, h: 1, alpha: &ALPHA };
    <ShadowBuffer<Rgb565> as Backend<Rgb565, A>>::blit_alpha(&mut s, &icon, Rgb565(0xFFFF), Rgb565(0));
    assert_eq!(s.pixels()[3 * 4 + 2], Rgb565(0xFFFF));
    assert_eq!(s.take_dirty(), Some(DirtyRect { x0: 2, y0: 3, x1: 3, y1: 4 }));
}

#[test]
fn web_buffer_uploads_once_per_change() {
    let mut w: WebBuffer<Rgb565> = WebBuffer::new(2, 2);
    assert!(!w.take_frame());
    <WebBuffer<Rgb565> as Backend<Rgb565, A>>::fill_rect(&mut w, 5, 5, 1, 1, Rgb565(1));
    assert!(!w.take_frame());
    <WebBuffer<Rgb565> as Backend<Rgb565, A>>::fill_rect(&mut w, 0, 1, 1, 1, Rgb565(1));
    assert_eq!(w.pixels()[2], Rgb565(1));
    assert!(w.take_frame());
    assert!(!w.take_frame());
    let a = atlas();
    w.blit(&a, 0, 0, "");
    assert!(w.take_frame());
}

#[test]
fn web_buffer_collects_decoded_events() {
    let mut w: WebBuffer<Rgb565> = WebBuffer::new(2, 2);
    w.push_event(0, 3, 4);
    w.push_event(9, 0, 0);
    w.push_event(2, 1, 1);
    assert_eq!(w.events(), &[InputEvent::Press { x: 3, y: 4 }, InputEvent::Move { x: 1, y: 1 }]);
    w.start_events();
    assert_eq!(w.events().len(), 0);
}

const FLAT_BITS: [u8; 1] = [0b01];
const FLAT: BitmapFont = BitmapFont { font_w: 2, font_h: 0, glyphs: 2, bitmap: &FLAT_BITS };

#[test]
fn raster_font_of_height_zero_samples_its_first_row() {
    let font: &'static BitmapFont = &FLAT;
    let a: A = RasterAtlas::new(font, 2, 1, Rgb565(1), Rgb565(0));
    let mut fb = vec![Rgb565(9); 4];
    let end = a.blit(&mut fb, 4, 0, 0, "AB");
    assert_eq!(end, 4);
    assert_eq!(fb, vec![Rgb565(1), Rgb565(0), Rgb565(1), Rgb565(0)]);
}

#[test]
fn shadow_rows_may_be_wider_than_their_stride() {
    let mut s: ShadowBuffer<Rgb565> = ShadowBuffer::new(2, 3, 2);
    <ShadowBuffer<Rgb565> as Backend<Rgb565, A>>::fill_rect(&mut s, 0, 1, 3, 1, Rgb565(5));
    assert_eq!(&s.pixels()[0..6], &[Rgb565(0), Rgb565(0), Rgb565(5), Rgb565(5), Rgb565(5), Rgb565(0)]);
    assert_eq!(s.take_dirty(), Some(DirtyRect { x0: 0, y0: 1, x1: 3, y1: 2 }));
}

#[test]
fn framebuffer_stride_needs_matching_depth() {
    assert_eq!(imgrids::surface::fb_stride(16, 2, 1600), Some(800));
    assert_eq!(imgrids::surface::fb_stride(32, 2, 1600), None);
    assert_eq!(imgrids::surface::fb_stride(32, 4, 3202), Some(800));
}

#[test]
fn shadow_rows_are_contiguous_whole_rows() {
    let mut s: ShadowBuffer<Rgb565> = ShadowBuffer::new(2, 2, 2);
    <ShadowBuffer<Rgb565> as Backend<Rgb565, A>>::fill_rect(&mut s, 0, 1, 2, 1, Rgb565(4));
    assert_eq!(s.rows(1, 2), &[Rgb565(4), Rgb565(4)]);
    assert_eq!(s.rows(0, 2), &[Rgb565(0), Rgb565(0), Rgb565(4), Rgb565(4)]);
    assert!(s.rows(1, 1).is_empty());
}
