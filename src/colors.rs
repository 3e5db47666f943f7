//! Packed pixel colors.
use vstd::prelude::*;

verus! {

/// The color of a single pixel, stored as 0xAARRGGBB (alpha is not used).
pub type Color = u32;

/// The packed value of the red, green and blue channels, alpha zero.
pub open spec fn rgb_value(r: u8, g: u8, b: u8) -> int {
    r as int * 65536 + g as int * 256 + b as int
}

/// Create a color from red, green, and blue parts. Alpha is set to 0.
pub fn from_u8_rgb(r: u8, g: u8, b: u8) -> (c: Color)
    ensures
        c as int == rgb_value(r, g, b),
{
    let (r32, g32, b32) = (r as u32, g as u32, b as u32);
    let c = (r32 << 16) | (g32 << 8) | b32;
    assert(c == r32 * 65536 + g32 * 256 + b32) by (bit_vector)
        requires
            c == (r32 << 16) | (g32 << 8) | b32,
            r32 < 256,
            g32 < 256,
            b32 < 256,
    ;
    c
}

/// Background color (black).
pub const BG: Color = 0;

/// Foreground color (white).
pub const FG: Color = 0x00ff_ffff;

/// The red, green and blue channels of a color; the top byte is ignored.
pub open spec fn channels(c: Color) -> (u8, u8, u8) {
    (((c / 65536) % 256) as u8, ((c / 256) % 256) as u8, (c % 256) as u8)
}

/// Unpack a color into red, green, and blue parts. Alpha is ignored.
pub fn to_u8_rgb(color: Color) -> (rgb: (u8, u8, u8))
    ensures
        rgb == channels(color),
{
    let r = (color >> 16) & 0xff;
    let g = (color >> 8) & 0xff;
    let b = color & 0xff;
    assert(r == (color / 65536) % 256 && g == (color / 256) % 256 && b == color % 256)
        by (bit_vector)
        requires
            r == (color >> 16) & 0xff,
            g == (color >> 8) & 0xff,
            b == color & 0xff,
    ;
    (r as u8, g as u8, b as u8)
}

/// Unpacking a packed color gives back its channels.
pub proof fn lemma_unpack_pack(r: u8, g: u8, b: u8)
    ensures
        channels(rgb_value(r, g, b) as u32) == (r, g, b),
{
    let c = rgb_value(r, g, b);
    assert(c / 65536 == r as int && (c / 256) % 256 == g as int && c % 256 == b as int)
        by (nonlinear_arith)
        requires
            c == r as int * 65536 + g as int * 256 + b as int,
            0 <= r < 256,
            0 <= g < 256,
            0 <= b < 256,
    ;
}

} // verus!
