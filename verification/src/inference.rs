//! Why the pattern printer shows the masks: the table of a probe of distinct
//! blocks against its deswizzled image holds, at the two places that the
//! printer reads, the masks that the image was deswizzled with, counted in
//! blocks.

use vstd::prelude::*;
use vstd::arithmetic::div_mod::lemma_fundamental_div_mod;
use vstd::arithmetic::div_mod::lemma_fundamental_div_mod_converse;
use vstd::arithmetic::div_mod::lemma_mod_self_0;
use vstd::arithmetic::div_mod::lemma_small_mod;
use crate::blocks::{block_at, blocks_of};
use crate::format::{tile_size, ImageFormat};
use crate::grids::{lemma_masks_16_fill_grid, lemma_masks_8_fill_grid};
use crate::image::{
    deswizzled_image,
    format_x_mask,
    format_y_mask,
    image_size,
    round_trips,
    tiles_along,
    zeros,
};
use crate::lut::{deswizzle_lut, lemma_entry_of_distinct, pairwise_distinct};
use crate::payload::{lemma_payload_blocks_distinct, lemma_payload_len, unique_payload};
use crate::patterns::{x_pattern_index, y_pattern_index};
use crate::lanes::lane_count;
use crate::tiling::{
    is_tile_offset,
    lemma_filling_masks_tile_grid,
    lemma_masks_at_corners,
};
use crate::walk::{gathered, tile_address};

verus! {

/// The blocks of a probe in the order in which the walk fetches them: block
/// `t` is the block of the probe at the swizzled address of tile `t`.
pub open spec fn fetched_blocks(
    x_mask: u32,
    y_mask: u32,
    width: nat,
    tiles: nat,
    tile_bytes: nat,
    probe: Seq<u128>,
) -> Seq<u128> {
    Seq::new(
        tiles,
        |t: int| probe[tile_address(x_mask, y_mask, width, t as nat) / (tile_bytes as int)],
    )
}

/// The walk stays on the tiles of a buffer of `tiles` tiles: every swizzled
/// address is the offset of one of them.
pub open spec fn walk_on_tiles(
    x_mask: u32,
    y_mask: u32,
    width: nat,
    height: nat,
    tile_bytes: nat,
) -> bool {
    forall|t: nat|
        t < width * height ==> is_tile_offset(
            #[trigger] tile_address(x_mask, y_mask, width, t),
            width * height,
            tile_bytes,
        )
}

/// Where the walk stays on the tiles of the buffer, the blocks of a
/// deswizzled buffer are the blocks of the swizzled buffer in the order in
/// which the walk fetches them.
pub proof fn lemma_blocks_of_gathered(
    x_mask: u32,
    y_mask: u32,
    width: nat,
    height: nat,
    tile_bytes: nat,
    source: Seq<u8>,
    destination: Seq<u8>,
)
    requires
        tile_bytes > 0,
        walk_on_tiles(x_mask, y_mask, width, height, tile_bytes),
        source.len() == width * height * tile_bytes,
        destination.len() == source.len(),
    ensures
        blocks_of(
            gathered(x_mask, y_mask, width, width * height, tile_bytes, source, destination),
            tile_bytes,
        ) == fetched_blocks(
            x_mask,
            y_mask,
            width,
            width * height,
            tile_bytes,
            blocks_of(source, tile_bytes),
        ),
{
    let tiles = width * height;
    let linear = gathered(x_mask, y_mask, width, tiles, tile_bytes, source, destination);
    let left = blocks_of(linear, tile_bytes);
    let right = fetched_blocks(
        x_mask,
        y_mask,
        width,
        tiles,
        tile_bytes,
        blocks_of(source, tile_bytes),
    );
    lemma_fundamental_div_mod_converse(
        (tiles * tile_bytes) as int,
        tile_bytes as int,
        tiles as int,
        0,
    );
    assert forall|t: int| 0 <= t < tiles implies left[t] == right[t] by {
        let a = tile_address(x_mask, y_mask, width, t as nat);
        assert(is_tile_offset(a, tiles, tile_bytes));
        lemma_fundamental_div_mod(a, tile_bytes as int);
        let q = a / (tile_bytes as int);
        assert(q * tile_bytes == tile_bytes * q) by (nonlinear_arith);
        assert(0 <= q < tiles) by (nonlinear_arith)
            requires
                a == tile_bytes * q,
                0 <= a,
                a + tile_bytes <= tiles * tile_bytes,
                tile_bytes > 0,
        ;
        assert(t * tile_bytes + tile_bytes <= tiles * tile_bytes) by (nonlinear_arith)
            requires
                0 <= t < tiles,
                tile_bytes > 0,
        ;
        assert(0 <= t * tile_bytes) by (nonlinear_arith)
            requires
                0 <= t,
                tile_bytes > 0,
        ;
        let fetched = linear.subrange(t * tile_bytes, t * tile_bytes + tile_bytes);
        let stored = source.subrange(q * tile_bytes, q * tile_bytes + tile_bytes);
        assert forall|k: int| 0 <= k < tile_bytes implies fetched[k] == stored[k] by {
            lemma_fundamental_div_mod_converse(
                t * tile_bytes + k,
                tile_bytes as int,
                t,
                k,
            );
        }
        assert(fetched =~= stored);
        assert(left[t] == block_at(linear, tile_bytes, t));
        assert(blocks_of(source, tile_bytes)[q] == block_at(source, tile_bytes, q));
    }
    assert(left =~= right);
}

/// Where the width is a multiple of the number of offsets in the lanes of the
/// x mask, and the height of that of the y mask, in a grid of at least two
/// columns and two rows, and both masks are offsets of blocks of the probe,
/// the table of a probe of distinct blocks against the blocks that the walk
/// fetches holds the x mask at the last tile of the first row and the y mask
/// at the first tile of the last row, both counted in blocks.
pub proof fn lemma_patterns_show_masks(
    x_mask: u32,
    y_mask: u32,
    width: nat,
    height: nat,
    tile_bytes: nat,
    probe: Seq<u128>,
)
    requires
        width >= 2,
        height >= 2,
        width % lane_count(x_mask) == 0,
        height % lane_count(y_mask) == 0,
        is_tile_offset(x_mask as int, probe.len(), tile_bytes),
        is_tile_offset(y_mask as int, probe.len(), tile_bytes),
        tile_bytes > 0,
        pairwise_distinct(probe),
        probe.len() <= usize::MAX,
        probe.len() <= i64::MAX,
    ensures
        x_pattern_index(width) < width * height,
        y_pattern_index(width, height) < width * height,
        deswizzle_lut(
            probe,
            fetched_blocks(x_mask, y_mask, width, width * height, tile_bytes, probe),
        )[x_pattern_index(width) as int] * tile_bytes == x_mask,
        deswizzle_lut(
            probe,
            fetched_blocks(x_mask, y_mask, width, width * height, tile_bytes, probe),
        )[y_pattern_index(width, height) as int] * tile_bytes == y_mask,
{
    lemma_masks_at_corners(x_mask, y_mask, width, height);
    lemma_place_of_offset(x_mask as int, probe.len(), tile_bytes);
    lemma_place_of_offset(y_mask as int, probe.len(), tile_bytes);
    lemma_entry_of_distinct(probe, x_mask as int / (tile_bytes as int));
    lemma_entry_of_distinct(probe, y_mask as int / (tile_bytes as int));
}

/// A tile offset is the tile size times the number of its tile.
proof fn lemma_place_of_offset(address: int, tiles: nat, tile_bytes: nat)
    requires
        tile_bytes > 0,
        is_tile_offset(address, tiles, tile_bytes),
    ensures
        0 <= address / (tile_bytes as int) < tiles,
        (address / (tile_bytes as int)) * tile_bytes == address,
{
    lemma_fundamental_div_mod(address, tile_bytes as int);
    let q = address / (tile_bytes as int);
    assert(q * tile_bytes == tile_bytes * q) by (nonlinear_arith);
    assert(0 <= q < tiles) by (nonlinear_arith)
        requires
            address == tile_bytes * q,
            0 <= address,
            address + tile_bytes <= tiles * tile_bytes,
            tile_bytes > 0,
    ;
}

/// On the images of `round_trips` with at least two columns and two rows of
/// tiles, the table of a probe of distinct blocks against its deswizzled image
/// holds, at the two places that the pattern printer reads, the masks of the
/// format for that image, counted in blocks.
pub proof fn lemma_image_patterns_show_masks(
    format: ImageFormat,
    width: u32,
    height: u32,
    data: Seq<u8>,
)
    requires
        round_trips(format, width, height),
        tiles_along(format, width as nat) >= 2,
        tiles_along(format, height as nat) >= 2,
        data.len() == image_size(format, width as nat, height as nat),
        pairwise_distinct(blocks_of(data, tile_size(format))),
    ensures
        deswizzle_lut(
            blocks_of(data, tile_size(format)),
            blocks_of(
                deswizzled_image(format, width as nat, height as nat, data),
                tile_size(format),
            ),
        )[x_pattern_index(tiles_along(format, width as nat)) as int] * tile_size(format)
            == format_x_mask(
            format,
            tiles_along(format, width as nat) as u32,
            tiles_along(format, height as nat) as u32,
        ),
        deswizzle_lut(
            blocks_of(data, tile_size(format)),
            blocks_of(
                deswizzled_image(format, width as nat, height as nat, data),
                tile_size(format),
            ),
        )[y_pattern_index(
            tiles_along(format, width as nat),
            tiles_along(format, height as nat),
        ) as int] * tile_size(format) == format_y_mask(
            format,
            tiles_along(format, height as nat) as u32,
        ),
{
    let w = tiles_along(format, width as nat);
    let h = tiles_along(format, height as nat);
    let bytes = tile_size(format);
    let x_mask = format_x_mask(format, w as u32, h as u32);
    let y_mask = format_y_mask(format, h as u32);
    let size = image_size(format, width as nat, height as nat);
    if format == ImageFormat::Bc1 {
        lemma_masks_8_fill_grid(w as u32, h as u32);
    } else {
        lemma_masks_16_fill_grid(w as u32, h as u32);
    }
    lemma_filling_masks_tile_grid(x_mask, y_mask, w, h, bytes as u32);
    assert(w * h <= 1024 * 1024) by (nonlinear_arith)
        requires
            w <= 1024,
            h <= 1024,
    ;
    lemma_fundamental_div_mod_converse(size as int, bytes as int, (w * h) as int, 0);
    lemma_blocks_of_gathered(x_mask, y_mask, w, h, bytes, data, zeros(size));
    lemma_small_mod(0, w);
    lemma_mod_self_0(w as int);
    lemma_mod_self_0(h as int);
    lemma_masks_at_corners(x_mask, y_mask, w, h);
    assert(is_tile_offset(tile_address(x_mask, y_mask, w, (w - 1) as nat), w * h, bytes));
    assert(is_tile_offset(tile_address(x_mask, y_mask, w, (w * (h - 1)) as nat), w * h, bytes));
    lemma_patterns_show_masks(x_mask, y_mask, w, h, bytes, blocks_of(data, bytes));
}

/// On the images of `round_trips` with at least two columns and two rows of
/// tiles, the payload of unique blocks of the format is a probe that shows the
/// masks: its table against its deswizzled image holds, at the two places
/// that the pattern printer reads, the masks of the format for that image,
/// counted in blocks. The payload of `RgbaF32` is not made here.
pub proof fn lemma_payload_patterns_show_masks(format: ImageFormat, width: u32, height: u32)
    requires
        round_trips(format, width, height),
        format != ImageFormat::RgbaF32,
        tiles_along(format, width as nat) >= 2,
        tiles_along(format, height as nat) >= 2,
    ensures
        deswizzle_lut(
            blocks_of(
                unique_payload(
                    format,
                    tiles_along(format, width as nat) * tiles_along(format, height as nat),
                ),
                tile_size(format),
            ),
            blocks_of(
                deswizzled_image(
                    format,
                    width as nat,
                    height as nat,
                    unique_payload(
                        format,
                        tiles_along(format, width as nat) * tiles_along(format, height as nat),
                    ),
                ),
                tile_size(format),
            ),
        )[x_pattern_index(tiles_along(format, width as nat)) as int] * tile_size(format)
            == format_x_mask(
            format,
            tiles_along(format, width as nat) as u32,
            tiles_along(format, height as nat) as u32,
        ),
        deswizzle_lut(
            blocks_of(
                unique_payload(
                    format,
                    tiles_along(format, width as nat) * tiles_along(format, height as nat),
                ),
                tile_size(format),
            ),
            blocks_of(
                deswizzled_image(
                    format,
                    width as nat,
                    height as nat,
                    unique_payload(
                        format,
                        tiles_along(format, width as nat) * tiles_along(format, height as nat),
                    ),
                ),
                tile_size(format),
            ),
        )[y_pattern_index(
            tiles_along(format, width as nat),
            tiles_along(format, height as nat),
        ) as int] * tile_size(format) == format_y_mask(
            format,
            tiles_along(format, height as nat) as u32,
        ),
{
    let w = tiles_along(format, width as nat);
    let h = tiles_along(format, height as nat);
    assert(w * h <= 1024 * 1024) by (nonlinear_arith)
        requires
            w <= 1024,
            h <= 1024,
    ;
    lemma_payload_len(format, w * h);
    lemma_payload_blocks_distinct(format, w * h);
    lemma_image_patterns_show_masks(format, width, height, unique_payload(format, w * h));
}

} // verus!
