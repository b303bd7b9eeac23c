//! The frame buffer a renderer hands to a display: one packed 32-bit pixel per
//! screen position, rows from the top, alpha in the most significant byte.
use vstd::prelude::*;

verus! {

/// The value of an opaque pixel with the given 8-bit channels.
pub open spec fn argb(r: int, g: int, b: int) -> int {
    0xff00_0000 + r * 0x1_0000 + g * 0x100 + b
}

/// Packs three 8-bit channels into an opaque pixel: alpha, red, green and
/// blue from the most significant byte down.
pub fn to_bgra(r: u32, g: u32, b: u32) -> (p: u32)
    requires
        r <= 255,
        g <= 255,
        b <= 255,
    ensures
        p as int == argb(r as int, g as int, b as int),
        p >> 24u32 == 255,
        (p >> 16u32) & 0xff == r,
        (p >> 8u32) & 0xff == g,
        p & 0xff == b,
{
    let p = 0xff00_0000u32 | (r << 16u32) | (g << 8u32) | b;
    assert(p == 0xff00_0000u32 + r * 0x1_0000 + g * 0x100 + b) by (bit_vector)
        requires
            p == 0xff00_0000u32 | (r << 16u32) | (g << 8u32) | b,
            r <= 255,
            g <= 255,
            b <= 255,
    ;
    assert(p >> 24u32 == 255 && (p >> 16u32) & 0xff == r && (p >> 8u32) & 0xff == g && p & 0xff
        == b) by (bit_vector)
        requires
            p == 0xff00_0000u32 | (r << 16u32) | (g << 8u32) | b,
            r <= 255,
            g <= 255,
            b <= 255,
    ;
    p
}

/// The image row, counted from the bottom, and the column of position `pos`
/// of a frame buffer `width` pixels wide and `height` high.
pub fn pixel_coords(width: usize, height: usize, pos: usize) -> (r: (usize, usize))
    requires
        pos < width * height,
    ensures
        r.0 == height - 1 - pos / width,
        r.1 == pos % width,
        r.0 < height,
        r.1 < width,
{
    proof {
        assert(width > 0) by (nonlinear_arith)
            requires
                pos < width * height,
        ;
        assert(pos / width < height) by (nonlinear_arith)
            requires
                pos < width * height,
                width > 0,
        {
            vstd::arithmetic::div_mod::lemma_fundamental_div_mod(pos as int, width as int);
            if pos / width >= height {
                assert(width * (pos / width) >= width * height) by (nonlinear_arith)
                    requires
                        pos / width >= height,
                        width > 0,
                ;
            }
        }
    }
    (height - 1 - pos / width, pos % width)
}

} // verus!
