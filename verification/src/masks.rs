//! The mask generator: per-axis address masks as a function of the grid
//! dimensions in tiles, for 8-byte and for 16-byte tiles.
//!
//! A mask marks the bits of a byte address that the counter of one axis
//! occupies. The x counter and the y counter are interleaved, so the two masks
//! of one grid share no bit where the grid is one that the hardware layout
//! covers.

use vstd::prelude::*;
use vstd::std_specs::bits::u32_leading_zeros;

verus! {

/// The bits below the highest set bit of `v`, all set: `2^floor(log2 v) - 1`.
/// Zero for `v <= 1`.
pub open spec fn low_fill(v: u32) -> u32 {
    if u32_leading_zeros(v) >= 31 {
        0
    } else {
        u32::MAX >> ((u32_leading_zeros(v) + 1) as u32)
    }
}

/// The position of the highest set bit of `v`, for `v >= 1`.
pub open spec fn log2_floor(v: u32) -> u32 {
    (31 - u32_leading_zeros(v)) as u32
}

/// Where the bits of the x counter `x` go in an address of 16-byte tiles:
/// bit 0 to bit 5, bit 1 to bit 8, and the rest up by `shift` above bit 4.
pub open spec fn spread_x_16(x: u32, shift: u32) -> u32 {
    (((x & 0x1) << 1u32) | ((x & 0x2) << 3u32) | ((x & (!0u32 << 2u32)) << shift)) << 4u32
}

/// Where the bits of the y counter `y` go in an address of 16-byte tiles.
pub open spec fn spread_y_16(y: u32) -> u32 {
    ((y & 0x1) | ((y & 0x6) << 1u32) | ((y & 0x78) << 2u32) | ((y & 0x80) << 8u32)) << 4u32
}

/// Where the bits of the x counter `x` go in an address of 8-byte tiles.
pub open spec fn spread_x_8(x: u32, shift: u32) -> u32 {
    ((x & 0x1) | ((x & 0x2) << 1u32) | ((x & 0x4) << 3u32) | ((x & (!0u32 << 3u32)) << shift))
        << 3u32
}

/// Where the bits of the y counter `y` go in an address of 8-byte tiles.
pub open spec fn spread_y_8(y: u32) -> u32 {
    (((y & 0x1) << 1u32) | ((y & 0x6) << 2u32) | ((y & 0x78) << 3u32)) << 3u32
}

/// The x mask of a grid of `w` by `h` tiles of 16 bytes.
pub open spec fn mask_x_16(w: u32, h: u32) -> u32 {
    if w <= 2 {
        0b1u32 << 4u32
    } else {
        spread_x_16(low_fill(w), if log2_floor(h) < 7 { log2_floor(h) } else { 7 })
    }
}

/// The y mask of a grid of `h` rows of tiles of 16 bytes.
pub open spec fn mask_y_16(h: u32) -> u32 {
    if h <= 2 {
        0b10u32 << 4u32
    } else {
        spread_y_16(low_fill(h))
    }
}

/// The x mask of a grid of `w` by `h` tiles of 8 bytes.
pub open spec fn mask_x_8(w: u32, h: u32) -> u32 {
    spread_x_8(low_fill(w), log2_floor(h))
}

/// The y mask of a grid of `h` rows of tiles of 8 bytes.
pub open spec fn mask_y_8(h: u32) -> u32 {
    spread_y_8(low_fill(h))
}

/// Computes `low_fill(v)`.
fn low_fill_of(v: u32) -> (x: u32)
    ensures
        x == low_fill(v),
{
    let zeros: u32 = v.leading_zeros();
    if zeros >= 31 {
        0
    } else {
        u32::MAX >> (zeros + 1)
    }
}

/// Computes `log2_floor(v)`.
fn log2_floor_of(v: u32) -> (k: u32)
    requires
        v >= 1,
    ensures
        k == log2_floor(v),
        k <= 31,
{
    broadcast use vstd::std_specs::bits::axiom_u32_leading_zeros;
    31 - v.leading_zeros()
}

/// The x mask for 16-byte tiles.
pub fn swizzle_x_16(width_in_blocks: u32, height_in_blocks: u32) -> (mask: u32)
    requires
        width_in_blocks > 2 ==> height_in_blocks >= 1,
    ensures
        mask == mask_x_16(width_in_blocks, height_in_blocks),
{
    if width_in_blocks <= 2 {
        return 0b1 << 4;
    }
    let x: u32 = low_fill_of(width_in_blocks);
    let rows: u32 = log2_floor_of(height_in_blocks);
    let max_shift: u32 = if rows < 7 { rows } else { 7 };
    let result: u32 = ((x & 0x1) << 1) | ((x & 0x2) << 3) | ((x & (!0 << 2)) << max_shift);
    result << 4
}

/// The y mask for 16-byte tiles.
pub fn swizzle_y_16(_width_in_blocks: u32, height_in_blocks: u32) -> (mask: u32)
    ensures
        mask == mask_y_16(height_in_blocks),
{
    if height_in_blocks <= 2 {
        return 0b10 << 4;
    }
    let y: u32 = low_fill_of(height_in_blocks);
    let result: u32 = (y & 0x1) | ((y & 0x6) << 1) | ((y & 0x78) << 2) | ((y & 0x80) << 8);
    result << 4
}

/// The x mask for 8-byte tiles.
pub fn swizzle_x_8(width_in_blocks: u32, height_in_blocks: u32) -> (mask: u32)
    requires
        height_in_blocks >= 1,
    ensures
        mask == mask_x_8(width_in_blocks, height_in_blocks),
{
    let x: u32 = low_fill_of(width_in_blocks);
    let rows: u32 = log2_floor_of(height_in_blocks);
    let result: u32 = (x & 0x1) | ((x & 0x2) << 1) | ((x & 0x4) << 3) | ((x & (!0 << 3)) << rows);
    result << 3
}

/// The y mask for 8-byte tiles.
pub fn swizzle_y_8(_width_in_blocks: u32, height_in_blocks: u32) -> (mask: u32)
    ensures
        mask == mask_y_8(height_in_blocks),
{
    let y: u32 = low_fill_of(height_in_blocks);
    let result: u32 = ((y & 0x1) << 1) | ((y & 0x6) << 2) | ((y & 0x78) << 3);
    result << 3
}

} // verus!
