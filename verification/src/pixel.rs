//! Pixel formats: how an 8-bit-per-channel colour is packed into the
//! native word of a display surface, and unpacked again.
use vstd::prelude::*;

verus! {

/// A packed pixel type: converts from and to 8-bit RGB channels.
///
/// `from_rgb` may drop low bits of a channel (RGB565 keeps 5/6/5 bits);
/// `to_rgb` expands the kept bits back to 8-bit channels.
pub trait PixelFormat: Copy + Clone + Default + Send + Sync + Sized + 'static {
    /// The pixel that packs the channels `(r, g, b)`.
    spec fn spec_from_rgb(r: u8, g: u8, b: u8) -> Self;

    /// The channels that the pixel `self` unpacks to.
    spec fn spec_to_rgb(self) -> (u8, u8, u8);

    /// The value a fresh surface of this format starts with.
    spec fn spec_default() -> Self;

    fn from_rgb(r: u8, g: u8, b: u8) -> (p: Self)
        ensures
            p == Self::spec_from_rgb(r, g, b),
    ;

    fn to_rgb(self) -> (c: (u8, u8, u8))
        ensures
            c == self.spec_to_rgb(),
    ;

    /// The pixel that `Default::default` gives for this format.
    fn default_value() -> (p: Self)
        ensures
            p == Self::spec_default(),
    ;
}

/// 16-bit 5:6:5 pixel, red in the top five bits.
#[derive(Copy, Clone, Default, PartialEq, Eq, Structural, Debug)]
pub struct Rgb565(pub u16);

/// 32-bit pixel `0x00RRGGBB`.
#[derive(Copy, Clone, Default, PartialEq, Eq, Structural, Debug)]
pub struct Rgb888(pub u32);

/// 32-bit pixel whose bytes in memory (little-endian) are `[R, G, B, 0xFF]`.
#[derive(Copy, Clone, Default, PartialEq, Eq, Structural, Debug)]
pub struct Rgba8888(pub u32);

/// The RGB565 word for 8-bit channels: the top 5/6/5 bits of r/g/b.
pub open spec fn rgb565_word(r: u8, g: u8, b: u8) -> u16 {
    ((r / 8) * 2048 + (g / 4) * 32 + b / 8) as u16
}

/// The 8-bit channels an RGB565 word expands to (low bits zero).
pub open spec fn rgb565_channels(w: u16) -> (u8, u8, u8) {
    (((w / 2048) * 8) as u8, (((w / 32) % 64) * 4) as u8, ((w % 32) * 8) as u8)
}

/// The `0x00RRGGBB` word for 8-bit channels.
pub open spec fn rgb888_word(r: u8, g: u8, b: u8) -> u32 {
    (r * 65536 + g * 256 + b) as u32
}

/// The channels of a `0x??RRGGBB` word.
pub open spec fn rgb888_channels(w: u32) -> (u8, u8, u8) {
    (((w / 65536) % 256) as u8, ((w / 256) % 256) as u8, (w % 256) as u8)
}

/// The `0xFFBBGGRR` word for 8-bit channels (opaque alpha in the top byte).
pub open spec fn rgba8888_word(r: u8, g: u8, b: u8) -> u32 {
    (0xFF00_0000 + b * 65536 + g * 256 + r) as u32
}

/// The channels of a `0x??BBGGRR` word.
pub open spec fn rgba8888_channels(w: u32) -> (u8, u8, u8) {
    ((w % 256) as u8, ((w / 256) % 256) as u8, ((w / 65536) % 256) as u8)
}

impl Rgb565 {
    pub fn from_rgb(r: u8, g: u8, b: u8) -> (p: Self)
        ensures
            p.0 == rgb565_word(r, g, b),
    {
        let (r16, g16, b16) = (r as u16, g as u16, b as u16);
        let w: u16 = ((r16 >> 3) << 11) | ((g16 >> 2) << 5) | (b16 >> 3);
        assert(((r16 >> 3) << 11) | ((g16 >> 2) << 5) | (b16 >> 3) == (r16 / 8) * 2048 + (g16 / 4)
            * 32 + b16 / 8) by (bit_vector)
            requires
                r16 < 256,
                g16 < 256,
                b16 < 256,
        ;
        Rgb565(w)
    }

    pub fn to_rgb(self) -> (c: (u8, u8, u8))
        ensures
            c == rgb565_channels(self.0),
    {
        let w = self.0;
        assert(((w >> 11) & 0x1F) << 3 == (w / 2048) * 8) by (bit_vector);
        assert(((w >> 5) & 0x3F) << 2 == ((w / 32) % 64) * 4) by (bit_vector);
        assert((w & 0x1F) << 3 == (w % 32) * 8) by (bit_vector);
        ((((w >> 11) & 0x1F) << 3) as u8, (((w >> 5) & 0x3F) << 2) as u8, ((w & 0x1F) << 3) as u8)
    }
}

impl Rgb888 {
    pub fn from_rgb(r: u8, g: u8, b: u8) -> (p: Self)
        ensures
            p.0 == rgb888_word(r, g, b),
    {
        let (r32, g32, b32) = (r as u32, g as u32, b as u32);
        assert(r32 << 16 | g32 << 8 | b32 == r32 * 65536 + g32 * 256 + b32) by (bit_vector)
            requires
                r32 < 256,
                g32 < 256,
                b32 < 256,
        ;
        Rgb888(r32 << 16 | g32 << 8 | b32)
    }

    pub fn to_rgb(self) -> (c: (u8, u8, u8))
        ensures
            c == rgb888_channels(self.0),
    {
        let w = self.0;
        assert((w >> 16) & 0xFF == (w / 65536) % 256) by (bit_vector);
        assert((w >> 8) & 0xFF == (w / 256) % 256) by (bit_vector);
        assert(w & 0xFF == w % 256) by (bit_vector);
        (((w >> 16) & 0xFF) as u8, ((w >> 8) & 0xFF) as u8, (w & 0xFF) as u8)
    }
}

impl Rgba8888 {
    pub fn from_rgb(r: u8, g: u8, b: u8) -> (p: Self)
        ensures
            p.0 == rgba8888_word(r, g, b),
    {
        let (r32, g32, b32) = (r as u32, g as u32, b as u32);
        assert(r32 | g32 << 8 | b32 << 16 | 0xFF000000u32 == 0xFF00_0000u32 + b32 * 65536 + g32
            * 256 + r32) by (bit_vector)
            requires
                r32 < 256,
                g32 < 256,
                b32 < 256,
        ;
        Rgba8888(r32 | g32 << 8 | b32 << 16 | 0xFF000000)
    }

    pub fn to_rgb(self) -> (c: (u8, u8, u8))
        ensures
            c == rgba8888_channels(self.0),
    {
        let w = self.0;
        assert(w & 0xFF == w % 256) by (bit_vector);
        assert((w >> 8) & 0xFF == (w / 256) % 256) by (bit_vector);
        assert((w >> 16) & 0xFF == (w / 65536) % 256) by (bit_vector);
        ((w & 0xFF) as u8, ((w >> 8) & 0xFF) as u8, ((w >> 16) & 0xFF) as u8)
    }
}

impl PixelFormat for Rgb565 {
    open spec fn spec_from_rgb(r: u8, g: u8, b: u8) -> Self {
        Rgb565(rgb565_word(r, g, b))
    }

    open spec fn spec_to_rgb(self) -> (u8, u8, u8) {
        rgb565_channels(self.0)
    }

    open spec fn spec_default() -> Self {
        Rgb565(0)
    }

    fn from_rgb(r: u8, g: u8, b: u8) -> (p: Self) {
        Rgb565::from_rgb(r, g, b)
    }

    fn to_rgb(self) -> (c: (u8, u8, u8)) {
        Rgb565::to_rgb(self)
    }

    fn default_value() -> (p: Self) {
        Rgb565(0)
    }
}

impl PixelFormat for Rgb888 {
    open spec fn spec_from_rgb(r: u8, g: u8, b: u8) -> Self {
        Rgb888(rgb888_word(r, g, b))
    }

    open spec fn spec_to_rgb(self) -> (u8, u8, u8) {
        rgb888_channels(self.0)
    }

    open spec fn spec_default() -> Self {
        Rgb888(0)
    }

    fn from_rgb(r: u8, g: u8, b: u8) -> (p: Self) {
        Rgb888::from_rgb(r, g, b)
    }

    fn to_rgb(self) -> (c: (u8, u8, u8)) {
        Rgb888::to_rgb(self)
    }

    fn default_value() -> (p: Self) {
        Rgb888(0)
    }
}

impl PixelFormat for Rgba8888 {
    open spec fn spec_from_rgb(r: u8, g: u8, b: u8) -> Self {
        Rgba8888(rgba8888_word(r, g, b))
    }

    open spec fn spec_to_rgb(self) -> (u8, u8, u8) {
        rgba8888_channels(self.0)
    }

    open spec fn spec_default() -> Self {
        Rgba8888(0)
    }

    fn from_rgb(r: u8, g: u8, b: u8) -> (p: Self) {
        Rgba8888::from_rgb(r, g, b)
    }

    fn to_rgb(self) -> (c: (u8, u8, u8)) {
        Rgba8888::to_rgb(self)
    }

    fn default_value() -> (p: Self) {
        Rgba8888(0)
    }
}

/// Packing then unpacking an RGB565 pixel keeps the top 5/6/5 bits of each
/// channel and clears the rest.
pub proof fn lemma_rgb565_round_trip(r: u8, g: u8, b: u8)
    ensures
        rgb565_channels(rgb565_word(r, g, b)) == ((r / 8 * 8) as u8, (g / 4 * 4) as u8, (b / 8
            * 8) as u8),
{
    let w = rgb565_word(r, g, b);
    assert(w == r / 8 * 2048 + g / 4 * 32 + b / 8);
    assert(w / 2048 == r / 8) by (nonlinear_arith)
        requires
            w == r / 8 * 2048 + g / 4 * 32 + b / 8,
            g / 4 < 64,
            b / 8 < 32,
            r / 8 < 32,
    ;
    assert((w / 32) % 64 == g / 4) by (nonlinear_arith)
        requires
            w == r / 8 * 2048 + g / 4 * 32 + b / 8,
            g / 4 < 64,
            b / 8 < 32,
            r / 8 < 32,
    ;
    assert(w % 32 == b / 8) by (nonlinear_arith)
        requires
            w == r / 8 * 2048 + g / 4 * 32 + b / 8,
            b / 8 < 32,
    ;
}

/// Unpacking an RGB565 pixel and packing the channels again gives the same pixel.
pub proof fn lemma_rgb565_word_round_trip(w: u16)
    ensures
        ({
            let (r, g, b) = rgb565_channels(w);
            rgb565_word(r, g, b) == w
        }),
{
    let (r, g, b) = rgb565_channels(w);
    let hi = w / 2048;
    let mid = (w / 32) % 64;
    let lo = w % 32;
    assert(w == hi * 2048 + mid * 32 + lo) by (nonlinear_arith)
        requires
            hi == w / 2048,
            mid == (w / 32) % 64,
            lo == w % 32,
    ;
    assert(hi < 32);
    assert(r == hi * 8 && g == mid * 4 && b == lo * 8);
    assert(r / 8 == hi && g / 4 == mid && b / 8 == lo);
}

/// RGB888 packing is lossless: unpacking gives the channels back.
pub proof fn lemma_rgb888_round_trip(r: u8, g: u8, b: u8)
    ensures
        rgb888_channels(rgb888_word(r, g, b)) == (r, g, b),
{
    let w = rgb888_word(r, g, b);
    assert(w == r * 65536 + g * 256 + b);
    assert((w / 65536) % 256 == r && (w / 256) % 256 == g && w % 256 == b) by (nonlinear_arith)
        requires
            w == r * 65536 + g * 256 + b,
            r < 256,
            g < 256,
            b < 256,
    ;
}

/// RGBA8888 packing is lossless for the colour channels, and the alpha byte is opaque.
pub proof fn lemma_rgba8888_round_trip(r: u8, g: u8, b: u8)
    ensures
        rgba8888_channels(rgba8888_word(r, g, b)) == (r, g, b),
        rgba8888_word(r, g, b) / 0x0100_0000 == 0xFF,
{
    let w = rgba8888_word(r, g, b);
    assert(w == 0xFF00_0000 + b * 65536 + g * 256 + r);
    assert((w / 65536) % 256 == b && (w / 256) % 256 == g && w % 256 == r && w / 0x0100_0000
        == 0xFF) by (nonlinear_arith)
        requires
            w == 0xFF00_0000 + b * 65536 + g * 256 + r,
            r < 256,
            g < 256,
            b < 256,
    ;
}

} // verus!
