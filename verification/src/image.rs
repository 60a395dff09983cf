//! Swizzling and deswizzling the data of a whole image of a given format.

use vstd::prelude::*;
use crate::error::SwizzleError;
use crate::format::{get_tile_edge, get_tile_size, tile_edge, tile_size, ImageFormat};
use crate::grids::{
    disjoint_on_16,
    is_power_of_two,
    lemma_masks_16_cover,
    lemma_masks_16_disjoint,
    lemma_masks_16_tile_grid,
    lemma_masks_8_cover,
    lemma_masks_8_disjoint,
    lemma_masks_8_tile_grid,
    tiled_by_16,
    tiled_by_8,
};
use crate::masks::{
    mask_x_16,
    mask_x_8,
    mask_y_16,
    mask_y_8,
    swizzle_x_16,
    swizzle_x_8,
    swizzle_y_16,
    swizzle_y_8,
};
use crate::tiling::{
    is_tile_offset,
    lane_sums,
    lemma_gather_undoes_scatter,
    lemma_scatter_undoes_gather,
    tile_offsets,
    walk_tiles_grid,
};
use crate::walk::{
    gathered,
    scattered,
    swizzle_experimental,
    tile_address,
    walk_in_bounds,
    walkable,
};

verus! {

/// The x mask that `format` takes for a grid of `w` by `h` tiles. `Rgba8` has
/// no mask generator; its mask is zero.
pub open spec fn format_x_mask(format: ImageFormat, w: u32, h: u32) -> u32 {
    match format {
        ImageFormat::Rgba8 => 0,
        ImageFormat::Bc1 => mask_x_8(w, h),
        ImageFormat::RgbaF32 | ImageFormat::Bc3 | ImageFormat::Bc7 => mask_x_16(w, h),
    }
}

/// The y mask that `format` takes for a grid of `h` rows of tiles.
pub open spec fn format_y_mask(format: ImageFormat, h: u32) -> u32 {
    match format {
        ImageFormat::Rgba8 => 0,
        ImageFormat::Bc1 => mask_y_8(h),
        ImageFormat::RgbaF32 | ImageFormat::Bc3 | ImageFormat::Bc7 => mask_y_16(h),
    }
}

/// The number of tiles along a side of `pixels` pixels.
pub open spec fn tiles_along(format: ImageFormat, pixels: nat) -> nat {
    pixels / tile_edge(format)
}

/// The number of bytes of an image of `width` by `height` pixels.
pub open spec fn image_size(format: ImageFormat, width: nat, height: nat) -> nat {
    tiles_along(format, width) * tiles_along(format, height) * tile_size(format)
}

/// A buffer of `length` zero bytes.
pub open spec fn zeros(length: nat) -> Seq<u8> {
    Seq::new(length, |i: int| 0u8)
}

/// An input of `input_len` bytes can be walked as an image of `width` by
/// `height` pixels: both sides of the grid fit in 32 bits, and the input and
/// an output of the image's size can be walked with the masks of the format.
pub open spec fn image_walkable(
    format: ImageFormat,
    width: nat,
    height: nat,
    input_len: nat,
    deswizzle: bool,
) -> bool {
    let w = tiles_along(format, width);
    let h = tiles_along(format, height);
    &&& w <= u32::MAX
    &&& h <= u32::MAX
    &&& image_size(format, width, height) <= usize::MAX
    &&& walkable(
        format_x_mask(format, w as u32, h as u32),
        format_y_mask(format, h as u32),
        w,
        h,
        tile_size(format),
        input_len,
        image_size(format, width, height),
        deswizzle,
    )
}

/// The swizzled image of the linear data `input`: a buffer of the image's
/// size, zero but where the walk put a tile.
pub open spec fn swizzled_image(
    format: ImageFormat,
    width: nat,
    height: nat,
    input: Seq<u8>,
) -> Seq<u8> {
    let w = tiles_along(format, width);
    let h = tiles_along(format, height);
    scattered(
        format_x_mask(format, w as u32, h as u32),
        format_y_mask(format, h as u32),
        w,
        w * h,
        tile_size(format),
        input,
        zeros(image_size(format, width, height)),
    )
}

/// The linear image of the swizzled data `input`: a buffer of the image's
/// size, every tile fetched from its swizzled place.
pub open spec fn deswizzled_image(
    format: ImageFormat,
    width: nat,
    height: nat,
    input: Seq<u8>,
) -> Seq<u8> {
    let w = tiles_along(format, width);
    let h = tiles_along(format, height);
    gathered(
        format_x_mask(format, w as u32, h as u32),
        format_y_mask(format, h as u32),
        w,
        w * h,
        tile_size(format),
        input,
        zeros(image_size(format, width, height)),
    )
}

/// What swizzling or deswizzling the data of an image returns. For `Rgba8`,
/// which has no swizzle, a zero buffer of the image's size. For the other
/// formats the walked image where the input can be walked, and
/// `InvalidBuffer` where it cannot.
pub open spec fn image_outcome(
    format: ImageFormat,
    width: nat,
    height: nat,
    input: Seq<u8>,
    deswizzle: bool,
    result: Result<Vec<u8>, SwizzleError>,
) -> bool {
    if format == ImageFormat::Rgba8 {
        if image_size(format, width, height) <= usize::MAX {
            result is Ok && result->Ok_0@ == zeros(image_size(format, width, height))
        } else {
            result == Err::<Vec<u8>, SwizzleError>(SwizzleError::InvalidBuffer)
        }
    } else if image_walkable(format, width, height, input.len(), deswizzle) {
        result is Ok && result->Ok_0@ == (if deswizzle {
            deswizzled_image(format, width, height, input)
        } else {
            swizzled_image(format, width, height, input)
        })
    } else {
        result == Err::<Vec<u8>, SwizzleError>(SwizzleError::InvalidBuffer)
    }
}

/// Walks the data of an image in one direction.
fn walk_image(
    input_data: &[u8],
    width: usize,
    height: usize,
    format: &ImageFormat,
    deswizzle: bool,
) -> (result: Result<Vec<u8>, SwizzleError>)
    ensures
        image_outcome(*format, width as nat, height as nat, input_data@, deswizzle, result),
{
    let edge: usize = get_tile_edge(format);
    let width_in_tiles: usize = width / edge;
    let height_in_tiles: usize = height / edge;
    let tile_size: usize = get_tile_size(format);
    let ghost size: nat = image_size(*format, width as nat, height as nat);
    let tiles: usize = match width_in_tiles.checked_mul(height_in_tiles) {
        Some(tiles) => tiles,
        None => {
            proof {
                assert(size >= width_in_tiles * height_in_tiles) by (nonlinear_arith)
                    requires
                        size == width_in_tiles * height_in_tiles * tile_size,
                        tile_size >= 1,
                        width_in_tiles * height_in_tiles >= 0,
                ;
            }
            return Err(SwizzleError::InvalidBuffer);
        },
    };
    let total: usize = match tiles.checked_mul(tile_size) {
        Some(total) => total,
        None => {
            return Err(SwizzleError::InvalidBuffer);
        },
    };
    match format {
        ImageFormat::Rgba8 => {
            let blank: Vec<u8> = vec![0u8; total];
            assert(blank@ =~= zeros(size));
            return Ok(blank);
        },
        _ => {},
    }
    if width_in_tiles > u32::MAX as usize || height_in_tiles > u32::MAX as usize || total
        > input_data.len() {
        return Err(SwizzleError::InvalidBuffer);
    }
    let mut output_data: Vec<u8> = vec![0u8; total];
    assert(output_data@ =~= zeros(size));
    if width_in_tiles == 0 || height_in_tiles == 0 {
        proof {
            assert(width_in_tiles * height_in_tiles == 0) by (nonlinear_arith)
                requires
                    width_in_tiles == 0 || height_in_tiles == 0,
            ;
        }
        if input_data.len() % tile_size != 0 {
            return Err(SwizzleError::InvalidBuffer);
        }
        assert(output_data@ =~= swizzled_image(
            *format,
            width as nat,
            height as nat,
            input_data@,
        ));
        assert(output_data@ =~= deswizzled_image(
            *format,
            width as nat,
            height as nat,
            input_data@,
        ));
        return Ok(output_data);
    }
    let walked = match format {
        ImageFormat::Bc1 => swizzle_experimental(
            swizzle_x_8,
            swizzle_y_8,
            width_in_tiles,
            height_in_tiles,
            input_data,
            output_data.as_mut_slice(),
            deswizzle,
            8,
        ),
        _ => swizzle_experimental(
            swizzle_x_16,
            swizzle_y_16,
            width_in_tiles,
            height_in_tiles,
            input_data,
            output_data.as_mut_slice(),
            deswizzle,
            16,
        ),
    };
    match walked {
        Ok(()) => Ok(output_data),
        Err(error) => Err(error),
    }
}

/// Arranges the linear data of an image as the hardware lays it out. The
/// result has the image's size; `width` and `height` are in pixels.
pub fn swizzle_data(input_data: &[u8], width: usize, height: usize, format: &ImageFormat) -> (result:
    Result<Vec<u8>, SwizzleError>)
    ensures
        image_outcome(*format, width as nat, height as nat, input_data@, false, result),
{
    walk_image(input_data, width, height, format, false)
}

/// Arranges the swizzled data of an image row by row. The result has the
/// image's size; `width` and `height` are in pixels.
pub fn deswizzle_data(
    input_data: &[u8],
    width: usize,
    height: usize,
    format: &ImageFormat,
) -> (result: Result<Vec<u8>, SwizzleError>)
    ensures
        image_outcome(*format, width as nat, height as nat, input_data@, true, result),
{
    walk_image(input_data, width, height, format, true)
}

/// The images on which swizzling and deswizzling undo each other: the format
/// has a swizzle, both sides are powers of two of at least one tile and at
/// most 1024 pixels, and the masks of the format tile the grid.
pub open spec fn round_trips(format: ImageFormat, width: u32, height: u32) -> bool {
    &&& is_power_of_two(width) && tile_edge(format) <= width <= 1024
    &&& is_power_of_two(height) && tile_edge(format) <= height <= 1024
    &&& match format {
        ImageFormat::Rgba8 => false,
        ImageFormat::Bc1 => tiled_by_8(
            tiles_along(format, width as nat) as u32,
            tiles_along(format, height as nat) as u32,
        ),
        ImageFormat::RgbaF32 | ImageFormat::Bc3 | ImageFormat::Bc7 => tiled_by_16(
            tiles_along(format, width as nat) as u32,
            tiles_along(format, height as nat) as u32,
        ),
    }
}

/// On the images of `round_trips`, the walk with the masks of the format is a
/// one-to-one map from the tiles onto the tile offsets of the buffer.
pub proof fn lemma_image_walk_tiles_grid(format: ImageFormat, width: u32, height: u32)
    requires
        round_trips(format, width, height),
    ensures
        walk_tiles_grid(
            format_x_mask(
                format,
                tiles_along(format, width as nat) as u32,
                tiles_along(format, height as nat) as u32,
            ),
            format_y_mask(format, tiles_along(format, height as nat) as u32),
            tiles_along(format, width as nat),
            tiles_along(format, height as nat),
            tile_size(format),
        ),
{
    let w = tiles_along(format, width as nat) as u32;
    let h = tiles_along(format, height as nat) as u32;
    if format == ImageFormat::Bc1 {
        lemma_masks_8_tile_grid(w, h);
    } else {
        lemma_masks_16_tile_grid(w, h);
    }
}

/// On the images of `round_trips`, every buffer of the image's size can be
/// swizzled and deswizzled, deswizzling what was swizzled gives the buffer
/// back, and so does swizzling what was deswizzled.
pub proof fn lemma_image_round_trip(format: ImageFormat, width: u32, height: u32, data: Seq<u8>)
    requires
        round_trips(format, width, height),
        data.len() == image_size(format, width as nat, height as nat),
    ensures
        image_walkable(format, width as nat, height as nat, data.len(), false),
        image_walkable(format, width as nat, height as nat, data.len(), true),
        deswizzled_image(
            format,
            width as nat,
            height as nat,
            swizzled_image(format, width as nat, height as nat, data),
        ) == data,
        swizzled_image(
            format,
            width as nat,
            height as nat,
            deswizzled_image(format, width as nat, height as nat, data),
        ) == data,
{
    let w = tiles_along(format, width as nat);
    let h = tiles_along(format, height as nat);
    let bytes = tile_size(format);
    let x_mask = format_x_mask(format, w as u32, h as u32);
    let y_mask = format_y_mask(format, h as u32);
    let size = image_size(format, width as nat, height as nat);
    lemma_image_walk_tiles_grid(format, width, height);
    assert(size <= 1024 * 1024 * 16) by (nonlinear_arith)
        requires
            size == w * h * bytes,
            w <= 1024,
            h <= 1024,
            bytes <= 16,
    ;
    assert(size % bytes == 0) by (nonlinear_arith)
        requires
            size == w * h * bytes,
            bytes > 0,
    ;
    assert(walk_in_bounds(x_mask, y_mask, w, w * h, bytes, size)) by {
        assert forall|t: nat| t < w * h implies #[trigger] tile_address(x_mask, y_mask, w, t)
            + bytes <= size by {
            assert(is_tile_offset(tile_address(x_mask, y_mask, w, t), w * h, bytes));
        }
    }
    lemma_gather_undoes_scatter(x_mask, y_mask, w, h, bytes, data, zeros(size), zeros(size));
    lemma_scatter_undoes_gather(x_mask, y_mask, w, h, bytes, data, zeros(size), zeros(size));
}

/// The images on which the two masks of the format share no bit, among those
/// with sides that are powers of two of at least one tile and at most 1024
/// pixels: all of them but, for the formats of 16-byte tiles, the grids that
/// `disjoint_on_16` leaves out.
pub open spec fn masks_apart(format: ImageFormat, width: u32, height: u32) -> bool {
    &&& is_power_of_two(width) && tile_edge(format) <= width <= 1024
    &&& is_power_of_two(height) && tile_edge(format) <= height <= 1024
    &&& match format {
        ImageFormat::Rgba8 | ImageFormat::Bc1 => true,
        ImageFormat::RgbaF32 | ImageFormat::Bc3 | ImageFormat::Bc7 => disjoint_on_16(
            tiles_along(format, width as nat) as u32,
            tiles_along(format, height as nat) as u32,
        ),
    }
}

/// Dividing a power of two by the edge of a tile that it holds gives a power
/// of two; and zero shares no bit with zero.
proof fn lemma_tiles_power_of_two(pixels: u32)
    by (bit_vector)
    requires
        pixels != 0,
        pixels & pixels.wrapping_sub(1) == 0,
    ensures
        4 <= pixels ==> pixels / 4 != 0 && (pixels / 4) & (pixels / 4).wrapping_sub(1) == 0,
        0u32 & 0u32 == 0,
{
}

/// On the images of `masks_apart`, the two masks of the format share no bit.
pub proof fn lemma_image_masks_disjoint(format: ImageFormat, width: u32, height: u32)
    requires
        masks_apart(format, width, height),
    ensures
        format_x_mask(
            format,
            tiles_along(format, width as nat) as u32,
            tiles_along(format, height as nat) as u32,
        ) & format_y_mask(format, tiles_along(format, height as nat) as u32) == 0,
{
    let w = tiles_along(format, width as nat) as u32;
    let h = tiles_along(format, height as nat) as u32;
    lemma_tiles_power_of_two(width);
    lemma_tiles_power_of_two(height);
    match format {
        ImageFormat::Rgba8 => {},
        ImageFormat::Bc1 => {
            lemma_masks_8_disjoint(w, h);
        },
        _ => {
            lemma_masks_16_disjoint(w, h);
        },
    }
}

/// The images on which the sums of the lane offsets of the two masks are the
/// tile offsets of the buffer: those of `round_trips`, but for the grids of
/// one row of 16-byte tiles, whose masks have more lanes than the grid has
/// tiles.
pub open spec fn lanes_cover(format: ImageFormat, width: u32, height: u32) -> bool {
    &&& round_trips(format, width, height)
    &&& format == ImageFormat::Bc1 || tiles_along(format, height as nat) != 1
}

/// On the images of `lanes_cover`, the sums of the lane offsets of the two
/// masks of the format are the tile offsets of the buffer, as many as the
/// image has tiles.
pub proof fn lemma_image_lanes_cover(format: ImageFormat, width: u32, height: u32)
    requires
        lanes_cover(format, width, height),
    ensures
        lane_sums(
            format_x_mask(
                format,
                tiles_along(format, width as nat) as u32,
                tiles_along(format, height as nat) as u32,
            ),
            format_y_mask(format, tiles_along(format, height as nat) as u32),
        ) == tile_offsets(
            tiles_along(format, width as nat) * tiles_along(format, height as nat),
            tile_size(format),
        ),
        tile_offsets(
            tiles_along(format, width as nat) * tiles_along(format, height as nat),
            tile_size(format),
        ).finite(),
        tile_offsets(
            tiles_along(format, width as nat) * tiles_along(format, height as nat),
            tile_size(format),
        ).len() == tiles_along(format, width as nat) * tiles_along(format, height as nat),
{
    let w = tiles_along(format, width as nat) as u32;
    let h = tiles_along(format, height as nat) as u32;
    if format == ImageFormat::Bc1 {
        lemma_masks_8_cover(w, h);
    } else {
        lemma_masks_16_cover(w, h);
    }
}

} // verus!
