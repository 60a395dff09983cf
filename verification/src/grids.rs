//! The grids that the generated masks tile, and what holds of the masks on
//! them.
//!
//! The mask formulas follow the hardware layout on some grids only. The
//! predicates `tiled_by_16` and `tiled_by_8` name, among the grids whose sides
//! are powers of two of at most 1024 tiles, those that the walk with the
//! generated masks tiles.

use vstd::prelude::*;
use vstd::std_specs::bits::axiom_u32_leading_zeros;
use vstd::std_specs::bits::u32_leading_zeros;
use vstd::arithmetic::div_mod::lemma_fundamental_div_mod;
use crate::lanes::{lane_count, lemma_upper_lanes_below, upper_lanes};
use crate::tiling::{
    is_single_bit,
    is_tile_offset,
    lane_sums,
    lemma_filling_masks_tile_grid,
    lemma_lane_sums_are_tile_offsets,
    masks_fill_grid,
    tile_offsets,
    walk_tiles_grid,
};
use crate::walk::{mask_step, tile_address, walk};
use crate::masks::{
    log2_floor,
    low_fill,
    mask_x_16,
    mask_x_8,
    mask_y_16,
    mask_y_8,
    spread_x_16,
    spread_x_8,
    spread_y_16,
    spread_y_8,
};

verus! {

/// `value` is a power of two.
pub open spec fn is_power_of_two(value: u32) -> bool {
    value != 0 && value & value.wrapping_sub(1) == 0
}

/// What the highest set bit of a power of two says of it.
proof fn lemma_highest_bit(value: u32, zeros: u32)
    by (bit_vector)
    requires
        value != 0,
        value & value.wrapping_sub(1) == 0,
        zeros < 32,
        (value >> ((31 - zeros) as u32)) & 1u32 != 0u32,
    ensures
        value == 1u32 << ((31 - zeros) as u32),
        zeros < 31 ==> u32::MAX >> ((zeros + 1) as u32) == value - 1,
        zeros == 31 ==> value == 1,
{
}

/// For a power of two, the filled low bits are the number less one, and the
/// number is one shifted by its logarithm.
pub proof fn lemma_power_of_two(value: u32)
    requires
        is_power_of_two(value),
    ensures
        low_fill(value) == value - 1,
        log2_floor(value) <= 31,
        value == 1u32 << log2_floor(value),
{
    axiom_u32_leading_zeros(value);
    lemma_highest_bit(value, u32_leading_zeros(value));
}

/// How the lowest lane of a mask is found when a lane above all of its lanes
/// is added.
proof fn lemma_top_lane_bits(mask: u32, top: u32)
    by (bit_vector)
    requires
        top != 0,
        top & top.wrapping_sub(1) == 0,
        mask < top,
    ensures
        (mask | top) != 0,
        mask == 0 ==> (mask | top) == top && upper_lanes(mask | top) == 0,
        mask != 0 ==> upper_lanes(mask | top) == upper_lanes(mask) | top && upper_lanes(mask)
            < top,
{
}

/// A lane added above all lanes of a mask doubles the lane count.
pub proof fn lemma_lane_count_with_top(mask: u32, top: u32)
    requires
        is_power_of_two(top),
        mask < top,
    ensures
        lane_count(mask | top) == 2 * lane_count(mask),
        mask == 0 ==> mask | top == top,
    decreases mask,
{
    lemma_top_lane_bits(mask, top);
    if mask != 0 {
        lemma_upper_lanes_below(mask);
        lemma_lane_count_with_top(upper_lanes(mask), top);
    }
}

/// Half of a power of two above one is a power of two.
proof fn lemma_half_power(value: u32)
    by (bit_vector)
    requires
        value != 0,
        value & value.wrapping_sub(1) == 0,
        value != 1,
    ensures
        value / 2 != 0,
        (value / 2) & (value / 2).wrapping_sub(1) == 0,
        value / 2 < value,
        value == 2 * (value / 2),
        value >= 2,
{
}

/// No bit of a zero counter goes anywhere.
proof fn lemma_spread_zero(shift: u32)
    by (bit_vector)
    ensures
        spread_x_16(0, shift) == 0,
        spread_y_16(0) == 0,
        spread_x_8(0, shift) == 0,
        spread_y_8(0) == 0,
{
}

/// The x counter of twice as many columns of 16-byte tiles has one lane more,
/// above the others.
proof fn lemma_spread_x_16_step(w: u32, shift: u32)
    by (bit_vector)
    requires
        w != 0,
        w & w.wrapping_sub(1) == 0,
        2 <= w <= 1024,
        3 <= shift <= 7,
    ensures
        spread_x_16((w - 1) as u32, shift) == spread_x_16((w / 2 - 1) as u32, shift)
            | spread_x_16(w / 2, shift),
        spread_x_16(w / 2, shift) != 0,
        spread_x_16(w / 2, shift) & spread_x_16(w / 2, shift).wrapping_sub(1) == 0,
        spread_x_16((w / 2 - 1) as u32, shift) < spread_x_16(w / 2, shift),
{
}

/// The y counter of twice as many rows of 16-byte tiles has one lane more,
/// above the others.
proof fn lemma_spread_y_16_step(h: u32)
    by (bit_vector)
    requires
        h != 0,
        h & h.wrapping_sub(1) == 0,
        2 <= h <= 256,
    ensures
        spread_y_16((h - 1) as u32) == spread_y_16((h / 2 - 1) as u32) | spread_y_16(h / 2),
        spread_y_16(h / 2) != 0,
        spread_y_16(h / 2) & spread_y_16(h / 2).wrapping_sub(1) == 0,
        spread_y_16((h / 2 - 1) as u32) < spread_y_16(h / 2),
{
}

/// The x counter of twice as many columns of 8-byte tiles has one lane more,
/// above the others.
proof fn lemma_spread_x_8_step(w: u32, shift: u32)
    by (bit_vector)
    requires
        w != 0,
        w & w.wrapping_sub(1) == 0,
        2 <= w <= 1024,
        shift <= 7,
        w <= 8 || 3 <= shift,
    ensures
        spread_x_8((w - 1) as u32, shift) == spread_x_8((w / 2 - 1) as u32, shift) | spread_x_8(
            w / 2,
            shift,
        ),
        spread_x_8(w / 2, shift) != 0,
        spread_x_8(w / 2, shift) & spread_x_8(w / 2, shift).wrapping_sub(1) == 0,
        spread_x_8((w / 2 - 1) as u32, shift) < spread_x_8(w / 2, shift),
{
}

/// The y counter of twice as many rows of 8-byte tiles has one lane more,
/// above the others.
proof fn lemma_spread_y_8_step(h: u32)
    by (bit_vector)
    requires
        h != 0,
        h & h.wrapping_sub(1) == 0,
        2 <= h <= 128,
    ensures
        spread_y_8((h - 1) as u32) == spread_y_8((h / 2 - 1) as u32) | spread_y_8(h / 2),
        spread_y_8(h / 2) != 0,
        spread_y_8(h / 2) & spread_y_8(h / 2).wrapping_sub(1) == 0,
        spread_y_8((h / 2 - 1) as u32) < spread_y_8(h / 2),
{
}

/// The x counter of `w` columns of 16-byte tiles has `w` offsets in its lanes.
pub proof fn lemma_spread_x_16_lanes(w: u32, shift: u32)
    requires
        is_power_of_two(w),
        w <= 1024,
        3 <= shift <= 7,
    ensures
        lane_count(spread_x_16((w - 1) as u32, shift)) == w,
    decreases w,
{
    if w == 1 {
        lemma_spread_zero(shift);
    } else {
        lemma_half_power(w);
        lemma_spread_x_16_step(w, shift);
        lemma_spread_x_16_lanes(w / 2, shift);
        lemma_lane_count_with_top(
            spread_x_16((w / 2 - 1) as u32, shift),
            spread_x_16(w / 2, shift),
        );
    }
}

/// The y counter of `h` rows of 16-byte tiles has `h` offsets in its lanes.
pub proof fn lemma_spread_y_16_lanes(h: u32)
    requires
        is_power_of_two(h),
        h <= 256,
    ensures
        lane_count(spread_y_16((h - 1) as u32)) == h,
    decreases h,
{
    if h == 1 {
        lemma_spread_zero(0);
    } else {
        lemma_half_power(h);
        lemma_spread_y_16_step(h);
        lemma_spread_y_16_lanes(h / 2);
        lemma_lane_count_with_top(spread_y_16((h / 2 - 1) as u32), spread_y_16(h / 2));
    }
}

/// The x counter of `w` columns of 8-byte tiles has `w` offsets in its lanes.
pub proof fn lemma_spread_x_8_lanes(w: u32, shift: u32)
    requires
        is_power_of_two(w),
        w <= 1024,
        shift <= 7,
        w <= 8 || 3 <= shift,
    ensures
        lane_count(spread_x_8((w - 1) as u32, shift)) == w,
    decreases w,
{
    if w == 1 {
        lemma_spread_zero(shift);
    } else {
        lemma_half_power(w);
        lemma_spread_x_8_step(w, shift);
        lemma_spread_x_8_lanes(w / 2, shift);
        lemma_lane_count_with_top(spread_x_8((w / 2 - 1) as u32, shift), spread_x_8(w / 2, shift));
    }
}

/// The y counter of `h` rows of 8-byte tiles has `h` offsets in its lanes.
pub proof fn lemma_spread_y_8_lanes(h: u32)
    requires
        is_power_of_two(h),
        h <= 128,
    ensures
        lane_count(spread_y_8((h - 1) as u32)) == h,
    decreases h,
{
    if h == 1 {
        lemma_spread_zero(0);
    } else {
        lemma_half_power(h);
        lemma_spread_y_8_step(h);
        lemma_spread_y_8_lanes(h / 2);
        lemma_lane_count_with_top(spread_y_8((h / 2 - 1) as u32), spread_y_8(h / 2));
    }
}

/// The grids of 16-byte tiles, `w` columns by `h` rows, that the walk with the
/// generated masks tiles, among those with sides that are powers of two up to
/// 1024.
pub open spec fn tiled_by_16(w: u32, h: u32) -> bool {
    ||| w == 1 && h == 1
    ||| w == 2 && h == 1
    ||| w == 2 && h == 2
    ||| is_power_of_two(w) && is_power_of_two(h) && 4 <= w <= 1024 && 8 <= h <= 128
    ||| w == 256 && h == 256
}

/// The grids of 8-byte tiles, `w` columns by `h` rows, that the walk with the
/// generated masks tiles, among those with sides that are powers of two up to
/// 1024.
pub open spec fn tiled_by_8(w: u32, h: u32) -> bool {
    ||| w == 1 && h == 1
    ||| w == 2 && h == 1
    ||| w == 2 && h == 2
    ||| w == 4 && (h == 2 || h == 4 || h == 8)
    ||| is_power_of_two(w) && is_power_of_two(h) && 8 <= w <= 1024 && 8 <= h <= 128
}

/// The grids of 16-byte tiles on which the generated masks share no bit, among
/// those with sides that are powers of two up to 1024.
pub open spec fn disjoint_on_16(w: u32, h: u32) -> bool {
    &&& is_power_of_two(w) && w <= 1024
    &&& is_power_of_two(h) && h <= 1024
    &&& (w <= 2 && h <= 2) || (w >= 4 && h >= 4 && (h <= 128 || w <= 256))
}

/// On wide and high grids of 16-byte tiles that the masks tile, the masks are
/// the spread counters, share no bit, and fill the address bits of the buffer.
proof fn lemma_cover_16(w: u32, h: u32, rows: u32)
    by (bit_vector)
    requires
        w != 0,
        w & w.wrapping_sub(1) == 0,
        4 <= w <= 1024,
        rows <= 31,
        h == 1u32 << rows,
        8 <= h <= 128 || (w == 256 && h == 256),
    ensures
        3 <= (if rows < 7 { rows } else { 7u32 }) <= 7,
        spread_x_16((w - 1) as u32, if rows < 7 { rows } else { 7u32 }) & spread_y_16(
            (h - 1) as u32,
        ) == 0,
        (spread_x_16((w - 1) as u32, if rows < 7 { rows } else { 7u32 }) | spread_y_16(
            (h - 1) as u32,
        )) + 16 == w * h * 16,
        is_single_bit(
            ((spread_x_16((w - 1) as u32, if rows < 7 { rows } else { 7u32 }) | spread_y_16(
                (h - 1) as u32,
            )) as u64 + 16u32 as u64) as u64,
        ),
{
}

/// On the grids of 8-byte tiles that the masks tile, the masks share no bit
/// and fill the address bits of the buffer.
proof fn lemma_cover_8(w: u32, h: u32, rows: u32)
    by (bit_vector)
    requires
        w != 0,
        w & w.wrapping_sub(1) == 0,
        rows <= 31,
        h == 1u32 << rows,
        (w <= 2 && h == 1) || (w == 2 && h == 2) || (w == 4 && 2 <= h <= 8) || (8 <= w <= 1024
            && 8 <= h <= 128),
    ensures
        rows <= 7,
        w <= 8 || 3 <= rows,
        h <= 128,
        spread_x_8((w - 1) as u32, rows) & spread_y_8((h - 1) as u32) == 0,
        (spread_x_8((w - 1) as u32, rows) | spread_y_8((h - 1) as u32)) + 8 == w * h * 8,
        is_single_bit(
            ((spread_x_8((w - 1) as u32, rows) | spread_y_8((h - 1) as u32)) as u64 + 8u32 as u64) as u64,
        ),
{
}

/// What holds of the two constant masks of the smallest grids of 16-byte
/// tiles, and of the two tile sizes.
proof fn lemma_constant_masks()
    by (bit_vector)
    ensures
        0x10u32 != 0 && 0x10u32 & 0x10u32.wrapping_sub(1) == 0,
        0x20u32 != 0 && 0x20u32 & 0x20u32.wrapping_sub(1) == 0,
        0x10u32 & 0x20u32 == 0,
        (0x10u32 | 0x20u32) + 16 == 64,
        0b1u32 << 4u32 == 0x10,
        0b10u32 << 4u32 == 0x20,
        is_single_bit(((0x10u32 | 0x20u32) as u64 + 16u32 as u64) as u64),
        is_single_bit(16u32 as u64),
        is_single_bit(8u32 as u64),
        mask_step(0, 0x10) == 0x10,
{
}

/// Any masks tile a grid of one tile.
pub proof fn lemma_one_tile(x_mask: u32, y_mask: u32, tile_bytes: nat)
    requires
        tile_bytes > 0,
    ensures
        walk_tiles_grid(x_mask, y_mask, 1, 1, tile_bytes),
{
    assert(tile_address(x_mask, y_mask, 1, 0) == 0);
    assert(is_tile_offset(0, 1, tile_bytes));
    assert forall|a: int| #[trigger] is_tile_offset(a, 1, tile_bytes) implies exists|t: nat|
        t < 1 && #[trigger] tile_address(x_mask, y_mask, 1, t) == a by {
        assert(a == 0);
    }
}

/// Masks tile a grid of one row of two tiles where the first step along x
/// leads to the second tile.
pub proof fn lemma_two_tiles(x_mask: u32, y_mask: u32, tile_bytes: nat)
    requires
        tile_bytes > 0,
        mask_step(0, x_mask) == tile_bytes,
    ensures
        walk_tiles_grid(x_mask, y_mask, 2, 1, tile_bytes),
{
    assert(tile_address(x_mask, y_mask, 2, 0) == 0);
    assert(walk(x_mask, 1) == mask_step(walk(x_mask, 0), x_mask));
    assert(tile_address(x_mask, y_mask, 2, 1) == tile_bytes);
    assert(is_tile_offset(0, 2, tile_bytes));
    assert((tile_bytes as int) % (tile_bytes as int) == 0) by (nonlinear_arith)
        requires
            tile_bytes > 0,
    ;
    assert(is_tile_offset(tile_bytes as int, 2, tile_bytes));
    assert forall|a: int| #[trigger] is_tile_offset(a, 2, tile_bytes) implies exists|t: nat|
        t < 2 && #[trigger] tile_address(x_mask, y_mask, 2, t) == a by {
        lemma_fundamental_div_mod(a, tile_bytes as int);
        let q = a / (tile_bytes as int);
        assert(q == 0 || q == 1) by (nonlinear_arith)
            requires
                a == tile_bytes * q,
                0 <= a <= tile_bytes,
                tile_bytes > 0,
        ;
        if q == 0 {
            assert(tile_address(x_mask, y_mask, 2, 0) == a);
        } else {
            assert(a == tile_bytes) by (nonlinear_arith)
                requires
                    a == tile_bytes * q,
                    q == 1,
            ;
            assert(tile_address(x_mask, y_mask, 2, 1) == a);
        }
    }
}

/// The walk with the generated masks tiles every grid of `tiled_by_16`.
pub proof fn lemma_masks_16_tile_grid(w: u32, h: u32)
    requires
        tiled_by_16(w, h),
    ensures
        walk_tiles_grid(mask_x_16(w, h), mask_y_16(h), w as nat, h as nat, 16),
{
    lemma_constant_masks();
    if h == 1 {
        if w == 1 {
            lemma_one_tile(mask_x_16(w, h), mask_y_16(h), 16);
        } else {
            lemma_two_tiles(mask_x_16(w, h), mask_y_16(h), 16);
        }
    } else {
        lemma_masks_16_fill_grid(w, h);
        lemma_filling_masks_tile_grid(mask_x_16(w, h), mask_y_16(h), w as nat, h as nat, 16);
    }
}

/// On the grids of `tiled_by_16` of more than one row, the generated masks
/// fill the grid.
pub proof fn lemma_masks_16_fill_grid(w: u32, h: u32)
    requires
        tiled_by_16(w, h),
        h != 1,
    ensures
        masks_fill_grid(mask_x_16(w, h), mask_y_16(h), w as nat, h as nat, 16),
{
    lemma_constant_masks();
    if w == 2 {
        lemma_lane_count_with_top(0, 0x10);
        lemma_lane_count_with_top(0, 0x20);
    } else {
        if w == 256 {
            assert(is_power_of_two(256) && is_power_of_two(256)) by (bit_vector);
        }
        lemma_power_of_two(w);
        lemma_power_of_two(h);
        let rows = log2_floor(h);
        let shift = if rows < 7 {
            rows
        } else {
            7u32
        };
        lemma_cover_16(w, h, rows);
        lemma_spread_x_16_lanes(w, shift);
        lemma_spread_y_16_lanes(h);
        assert(w as nat * h as nat * 16 == w * h * 16);
    }
}

/// On every grid of `tiled_by_8`, the generated masks fill the grid.
pub proof fn lemma_masks_8_fill_grid(w: u32, h: u32)
    requires
        tiled_by_8(w, h),
    ensures
        masks_fill_grid(mask_x_8(w, h), mask_y_8(h), w as nat, h as nat, 8),
{
    lemma_constant_masks();
    assert(is_power_of_two(1) && is_power_of_two(2) && is_power_of_two(4) && is_power_of_two(8))
        by (bit_vector);
    lemma_power_of_two(w);
    lemma_power_of_two(h);
    let rows = log2_floor(h);
    lemma_cover_8(w, h, rows);
    lemma_spread_x_8_lanes(w, rows);
    lemma_spread_y_8_lanes(h);
    assert(w as nat * h as nat * 8 == w * h * 8);
}

/// The walk with the generated masks tiles every grid of `tiled_by_8`.
pub proof fn lemma_masks_8_tile_grid(w: u32, h: u32)
    requires
        tiled_by_8(w, h),
    ensures
        walk_tiles_grid(mask_x_8(w, h), mask_y_8(h), w as nat, h as nat, 8),
{
    lemma_masks_8_fill_grid(w, h);
    lemma_filling_masks_tile_grid(mask_x_8(w, h), mask_y_8(h), w as nat, h as nat, 8);
}

/// On wide and high grids of 16-byte tiles, the spread counters share no bit
/// unless the grid is higher than 128 rows and wider than 256 columns.
proof fn lemma_disjoint_bits_16(w: u32, h: u32, rows: u32)
    by (bit_vector)
    requires
        w != 0,
        w & w.wrapping_sub(1) == 0,
        4 <= w <= 1024,
        rows <= 31,
        h == 1u32 << rows,
        4 <= h <= 1024,
        h <= 128 || w <= 256,
    ensures
        spread_x_16((w - 1) as u32, if rows < 7 { rows } else { 7u32 }) & spread_y_16(
            (h - 1) as u32,
        ) == 0,
{
}

/// On grids of 8-byte tiles the spread counters share no bit.
proof fn lemma_disjoint_bits_8(w: u32, h: u32, rows: u32)
    by (bit_vector)
    requires
        w != 0,
        w & w.wrapping_sub(1) == 0,
        w <= 1024,
        rows <= 31,
        h == 1u32 << rows,
        h <= 1024,
    ensures
        spread_x_8((w - 1) as u32, rows) & spread_y_8((h - 1) as u32) == 0,
{
}

/// The generated masks of a grid of 16-byte tiles share no bit, on every grid
/// of `disjoint_on_16`.
pub proof fn lemma_masks_16_disjoint(w: u32, h: u32)
    requires
        disjoint_on_16(w, h),
    ensures
        mask_x_16(w, h) & mask_y_16(h) == 0,
{
    if w <= 2 {
        lemma_constant_masks();
    } else {
        lemma_power_of_two(w);
        lemma_power_of_two(h);
        lemma_disjoint_bits_16(w, h, log2_floor(h));
    }
}

/// The generated masks of a grid of 8-byte tiles share no bit, on every grid
/// whose sides are powers of two up to 1024.
pub proof fn lemma_masks_8_disjoint(w: u32, h: u32)
    requires
        is_power_of_two(w),
        w <= 1024,
        is_power_of_two(h),
        h <= 1024,
    ensures
        mask_x_8(w, h) & mask_y_8(h) == 0,
{
    lemma_power_of_two(w);
    lemma_power_of_two(h);
    lemma_disjoint_bits_8(w, h, log2_floor(h));
}

/// On the grids of `tiled_by_16` of more than one row, the sums of the lane
/// offsets of the generated masks are the tile offsets of the buffer, as
/// many as the grid has tiles.
pub proof fn lemma_masks_16_cover(w: u32, h: u32)
    requires
        tiled_by_16(w, h),
        h != 1,
    ensures
        lane_sums(mask_x_16(w, h), mask_y_16(h)) == tile_offsets(w as nat * h as nat, 16),
        lane_sums(mask_x_16(w, h), mask_y_16(h)).finite(),
        lane_sums(mask_x_16(w, h), mask_y_16(h)).len() == w * h,
{
    lemma_masks_16_fill_grid(w, h);
    lemma_lane_sums_are_tile_offsets(mask_x_16(w, h), mask_y_16(h), w as nat, h as nat, 16);
}

/// On the grids of `tiled_by_8`, the sums of the lane offsets of the generated
/// masks are the tile offsets of the buffer, as many as the grid has tiles.
pub proof fn lemma_masks_8_cover(w: u32, h: u32)
    requires
        tiled_by_8(w, h),
    ensures
        lane_sums(mask_x_8(w, h), mask_y_8(h)) == tile_offsets(w as nat * h as nat, 8),
        lane_sums(mask_x_8(w, h), mask_y_8(h)).finite(),
        lane_sums(mask_x_8(w, h), mask_y_8(h)).len() == w * h,
{
    lemma_masks_8_fill_grid(w, h);
    lemma_lane_sums_are_tile_offsets(mask_x_8(w, h), mask_y_8(h), w as nat, h as nat, 8);
}

} // verus!
