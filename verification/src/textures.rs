//! Flat wall colours: one colour per wall identifier, packed into a pixel.

use vstd::prelude::*;

verus! {

/// A colour as its red, green and blue parts.
pub type Rgb = (u8, u8, u8);

/// The opaque pixel of the colour `(r, g, b)`: alpha in the top byte, then
/// red, green and blue.
pub open spec fn pack_rgb(r: int, g: int, b: int) -> int {
    0xFF00_0000 + r * 0x1_0000 + g * 0x100 + b
}

/// The pixel of a colour.
pub open spec fn pixel_of(rgb: Rgb) -> int {
    pack_rgb(rgb.0 as int, rgb.1 as int, rgb.2 as int)
}

/// The colour at half brightness where `dark` holds, the colour itself
/// otherwise.
pub open spec fn shaded(rgb: Rgb, dark: bool) -> Rgb {
    if dark {
        (rgb.0 / 2, rgb.1 / 2, rgb.2 / 2)
    } else {
        rgb
    }
}

/// The colour of the wall with identifier `id`.
pub open spec fn wall_rgb(id: u8) -> Rgb {
    if id == 1 {
        (220, 40, 40)
    } else if id == 2 {
        (40, 180, 40)
    } else if id == 3 {
        (40, 80, 220)
    } else if id == 4 {
        (200, 200, 40)
    } else if id == 5 {
        (200, 120, 200)
    } else {
        (180, 180, 180)
    }
}

/// The opaque pixel of the colour `(r, g, b)`.
pub fn rgb_to_u32(r: u8, g: u8, b: u8) -> (pixel: u32)
    ensures
        pixel == pack_rgb(r as int, g as int, b as int),
{
    let r32: u32 = r as u32;
    let g32: u32 = g as u32;
    let b32: u32 = b as u32;
    assert((0xFFu32 << 24) | (r32 << 16) | (g32 << 8) | b32 == 0xFF00_0000u32 + r32 * 0x1_0000u32
        + g32 * 0x100u32 + b32) by (bit_vector)
        requires
            r32 < 256,
            g32 < 256,
            b32 < 256,
    ;
    (0xFFu32 << 24) | (r32 << 16) | (g32 << 8) | b32
}

/// The pixel of the colour `rgb`, at half brightness where `dark` holds.
pub fn wall_color_shaded_rgba_rgb(rgb: Rgb, dark: bool) -> (pixel: u32)
    ensures
        pixel == pixel_of(shaded(rgb, dark)),
{
    if dark {
        rgb_to_u32(rgb.0 / 2, rgb.1 / 2, rgb.2 / 2)
    } else {
        rgb_to_u32(rgb.0, rgb.1, rgb.2)
    }
}

/// The pixel of the wall with identifier `id`, at half brightness where
/// `dark` holds.
pub fn wall_color_rgba(id: u8, dark: bool) -> (pixel: u32)
    ensures
        pixel == pixel_of(shaded(wall_rgb(id), dark)),
{
    let rgb: Rgb = if id == 1 {
        (220, 40, 40)
    } else if id == 2 {
        (40, 180, 40)
    } else if id == 3 {
        (40, 80, 220)
    } else if id == 4 {
        (200, 200, 40)
    } else if id == 5 {
        (200, 120, 200)
    } else {
        (180, 180, 180)
    };
    wall_color_shaded_rgba_rgb(rgb, dark)
}

} // verus!
