//! Packed 32-bit ARGB colours (`0xAARRGGBB`) and the demo palette.
use vstd::prelude::*;

verus! {

/// The packed value of the colour with alpha `a` and channels `r`, `g`, `b`.
pub open spec fn spec_argb(a: u8, r: u8, g: u8, b: u8) -> int {
    a * 0x1000000 + r * 0x10000 + g * 0x100 + b
}

/// Packs a colour as `0xAARRGGBB`.
pub fn argb(a: u8, r: u8, g: u8, b: u8) -> (p: u32)
    ensures
        p == spec_argb(a, r, g, b),
{
    let (a32, r32, g32, b32) = (a as u32, r as u32, g as u32, b as u32);
    assert(((a32 << 24u32) | (r32 << 16u32) | (g32 << 8u32) | b32) == a32 * 0x1000000 + r32 * 0x10000 + g32 * 0x100
        + b32) by (bit_vector)
        requires
            a32 < 256,
            r32 < 256,
            g32 < 256,
            b32 < 256,
    ;
    (a32 << 24u32) | (r32 << 16u32) | (g32 << 8u32) | b32
}

/// Packs an opaque colour.
pub fn rgb(r: u8, g: u8, b: u8) -> (p: u32)
    ensures
        p == spec_argb(0xFF, r, g, b),
{
    argb(0xFF, r, g, b)
}

pub const RED: u32 = 0xFFE63946;
pub const GREEN: u32 = 0xFF52B788;
pub const PURPLE: u32 = 0xFF6A4C93;
pub const BLUE: u32 = 0xFF4895EF;
pub const VIOLET: u32 = 0xFF9B5DE5;
pub const PINK: u32 = 0xFFF15BB5;
pub const WHITE: u32 = 0xFFFFFFFF;
pub const GRAY: u32 = 0xFFAAAAAA;
pub const TEAL: u32 = 0xFF0D3B38;
pub const BROWN: u32 = 0xFF2C1A0E;
pub const OLIVE: u32 = 0xFF1E2010;
pub const SLATE: u32 = 0xFF0F1535;
/// Fully transparent black.
pub const BLACK: u32 = 0x00000000;

/// Every palette entry is the opaque colour of its channels (black is
/// transparent).
pub proof fn lemma_palette()
    ensures
        RED == spec_argb(0xFF, 0xE6, 0x39, 0x46),
        GREEN == spec_argb(0xFF, 0x52, 0xB7, 0x88),
        PURPLE == spec_argb(0xFF, 0x6A, 0x4C, 0x93),
        BLUE == spec_argb(0xFF, 0x48, 0x95, 0xEF),
        VIOLET == spec_argb(0xFF, 0x9B, 0x5D, 0xE5),
        PINK == spec_argb(0xFF, 0xF1, 0x5B, 0xB5),
        WHITE == spec_argb(0xFF, 0xFF, 0xFF, 0xFF),
        GRAY == spec_argb(0xFF, 0xAA, 0xAA, 0xAA),
        TEAL == spec_argb(0xFF, 0x0D, 0x3B, 0x38),
        BROWN == spec_argb(0xFF, 0x2C, 0x1A, 0x0E),
        OLIVE == spec_argb(0xFF, 0x1E, 0x20, 0x10),
        SLATE == spec_argb(0xFF, 0x0F, 0x15, 0x35),
        BLACK == spec_argb(0x00, 0x00, 0x00, 0x00),
{
}

} // verus!
