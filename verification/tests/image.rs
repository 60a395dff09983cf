use nutexb_swizzle::{
    deswizzle_data, mask_walk, swizzle_data, swizzle_experimental, swizzle_x_16, swizzle_x_8,
    swizzle_y_16, swizzle_y_8, ImageFormat, SwizzleError,
};

// Bytes that differ from tile to tile and inside a tile.
fn pattern(length: usize) -> Vec<u8> {
    (0..length).map(|i| (i * 7 + i / 16 * 13 + i / 251) as u8).collect()
}

fn sizes_16() -> Vec<(usize, usize)> {
    let mut sizes = vec![(1, 1), (2, 1), (2, 2), (256, 256)];
    for w in [4, 8, 16, 32, 64, 128, 256, 512, 1024] {
        for h in [8, 16, 32, 64, 128] {
            if w * h <= 1 << 15 {
                sizes.push((w, h));
            }
        }
    }
    sizes
}

fn sizes_8() -> Vec<(usize, usize)> {
    let mut sizes = vec![(1, 1), (2, 1), (2, 2), (4, 2), (4, 4), (4, 8)];
    for w in [8, 16, 32, 64, 128, 256] {
        for h in [8, 16, 32, 64, 128] {
            if w * h <= 1 << 15 {
                sizes.push((w, h));
            }
        }
    }
    sizes
}

#[test]
fn swizzle_and_deswizzle_undo_each_other_bc7() {
    for (w, h) in sizes_16() {
        let data = pattern(w * h * 16);
        let swizzled = swizzle_data(&data, w * 4, h * 4, &ImageFormat::Bc7).unwrap();
        assert_eq!(Ok(data.clone()), deswizzle_data(&swizzled, w * 4, h * 4, &ImageFormat::Bc7));
        let linear = deswizzle_data(&data, w * 4, h * 4, &ImageFormat::Bc7).unwrap();
        assert_eq!(Ok(data), swizzle_data(&linear, w * 4, h * 4, &ImageFormat::Bc7));
    }
}

#[test]
fn swizzle_and_deswizzle_undo_each_other_bc3() {
    for (w, h) in [(2, 2), (16, 16), (64, 8)] {
        let data = pattern(w * h * 16);
        let swizzled = swizzle_data(&data, w * 4, h * 4, &ImageFormat::Bc3).unwrap();
        assert_eq!(Ok(data.clone()), deswizzle_data(&swizzled, w * 4, h * 4, &ImageFormat::Bc3));
        let linear = deswizzle_data(&data, w * 4, h * 4, &ImageFormat::Bc3).unwrap();
        assert_eq!(Ok(data), swizzle_data(&linear, w * 4, h * 4, &ImageFormat::Bc3));
    }
}

#[test]
fn swizzle_and_deswizzle_undo_each_other_bc1() {
    for (w, h) in sizes_8() {
        let data = pattern(w * h * 8);
        let swizzled = swizzle_data(&data, w * 4, h * 4, &ImageFormat::Bc1).unwrap();
        assert_eq!(Ok(data.clone()), deswizzle_data(&swizzled, w * 4, h * 4, &ImageFormat::Bc1));
        let linear = deswizzle_data(&data, w * 4, h * 4, &ImageFormat::Bc1).unwrap();
        assert_eq!(Ok(data), swizzle_data(&linear, w * 4, h * 4, &ImageFormat::Bc1));
    }
}

#[test]
fn swizzle_and_deswizzle_undo_each_other_rgba_f32() {
    // One tile is one pixel: the grid is as large as the image.
    for (w, h) in [(1, 1), (2, 2), (4, 8), (32, 32), (1024, 8)] {
        let data = pattern(w * h * 16);
        let swizzled = swizzle_data(&data, w, h, &ImageFormat::RgbaF32).unwrap();
        assert_eq!(data.len(), swizzled.len());
        assert_eq!(Ok(data.clone()), deswizzle_data(&swizzled, w, h, &ImageFormat::RgbaF32));
        let linear = deswizzle_data(&data, w, h, &ImageFormat::RgbaF32).unwrap();
        assert_eq!(Ok(data), swizzle_data(&linear, w, h, &ImageFormat::RgbaF32));
    }
}

#[test]
fn swizzle_moves_tiles_to_their_addresses() {
    // 2 by 2 tiles of 16 bytes: the x mask is 0b10000, the y mask 0b100000.
    let data = pattern(64);
    let swizzled = swizzle_data(&data, 8, 8, &ImageFormat::Bc7).unwrap();
    assert_eq!(data[0..16], swizzled[0..16]);
    assert_eq!(data[16..32], swizzled[16..32]);
    assert_eq!(data[32..48], swizzled[32..48]);
    assert_eq!(data[48..64], swizzled[48..64]);

    // 8 by 8 tiles: tile (0, 1) lies at 0b100000, tile (1, 0) at 0b10000.
    let data = pattern(8 * 8 * 16);
    let swizzled = swizzle_data(&data, 32, 32, &ImageFormat::Bc7).unwrap();
    assert_eq!(data[16..32], swizzled[32..48]);
    assert_eq!(data[8 * 16..9 * 16], swizzled[16..32]);
    let linear = deswizzle_data(&data, 32, 32, &ImageFormat::Bc7).unwrap();
    assert_eq!(data[32..48], linear[16..32]);
    assert_eq!(data[16..32], linear[8 * 16..9 * 16]);
}

#[test]
fn rgba8_has_no_swizzle() {
    let data = pattern(4 * 4 * 4);
    assert_eq!(Ok(vec![0u8; 64]), swizzle_data(&data, 4, 4, &ImageFormat::Rgba8));
    assert_eq!(Ok(vec![0u8; 64]), deswizzle_data(&data, 4, 4, &ImageFormat::Rgba8));
    assert_eq!(Ok(vec![0u8; 64]), swizzle_data(&[], 4, 4, &ImageFormat::Rgba8));
    assert_eq!(
        Err(SwizzleError::InvalidBuffer),
        swizzle_data(&data, usize::MAX, 2, &ImageFormat::Rgba8)
    );
}

#[test]
fn short_input_is_an_invalid_buffer() {
    let data = pattern(8 * 8 * 16 - 16);
    assert_eq!(Err(SwizzleError::InvalidBuffer), swizzle_data(&data, 32, 32, &ImageFormat::Bc7));
    assert_eq!(Err(SwizzleError::InvalidBuffer), deswizzle_data(&data, 32, 32, &ImageFormat::Bc7));
    assert_eq!(Err(SwizzleError::InvalidBuffer), swizzle_data(&[], 32, 32, &ImageFormat::Bc1));
}

#[test]
fn input_of_broken_tiles_is_an_invalid_buffer() {
    let data = pattern(8 * 8 * 16 + 5);
    assert_eq!(Err(SwizzleError::InvalidBuffer), swizzle_data(&data, 32, 32, &ImageFormat::Bc7));
    assert_eq!(Err(SwizzleError::InvalidBuffer), deswizzle_data(&data, 32, 32, &ImageFormat::Bc7));
    assert_eq!(Err(SwizzleError::InvalidBuffer), deswizzle_data(&data[..5], 0, 0, &ImageFormat::Bc7));
}

#[test]
fn longer_input_is_walked() {
    let data = pattern(8 * 8 * 16 + 32);
    let swizzled = swizzle_data(&data, 32, 32, &ImageFormat::Bc7).unwrap();
    assert_eq!(8 * 8 * 16, swizzled.len());
    assert_eq!(
        Ok(data[..8 * 8 * 16].to_vec()),
        deswizzle_data(&swizzled, 32, 32, &ImageFormat::Bc7)
    );
}

#[test]
fn image_without_tiles_is_empty() {
    assert_eq!(Ok(vec![]), swizzle_data(&[], 0, 0, &ImageFormat::Bc7));
    assert_eq!(Ok(vec![]), swizzle_data(&[], 3, 64, &ImageFormat::Bc1));
    assert_eq!(Ok(vec![]), deswizzle_data(&[], 64, 0, &ImageFormat::RgbaF32));
}

#[test]
fn grid_that_the_masks_do_not_tile_is_an_invalid_buffer() {
    // 4 by 4 tiles of 16 bytes: the x mask 0b100100000 reaches past the 256 bytes.
    let data = pattern(4 * 4 * 16);
    assert_eq!(Err(SwizzleError::InvalidBuffer), swizzle_data(&data, 16, 16, &ImageFormat::Bc7));
    assert_eq!(Err(SwizzleError::InvalidBuffer), deswizzle_data(&data, 16, 16, &ImageFormat::Bc7));
    // 1 by 2 tiles: the x offset is not back at zero after one column.
    let data = pattern(2 * 16);
    assert_eq!(Err(SwizzleError::InvalidBuffer), swizzle_data(&data, 4, 8, &ImageFormat::Bc7));
}

#[test]
fn failed_walk_leaves_the_destination() {
    let source = pattern(64);
    let mut destination = vec![9u8; 64];
    assert_eq!(
        Err(SwizzleError::InvalidBuffer),
        mask_walk(0x10, 0x20, 2, 2, &source, &mut destination, false, 0)
    );
    assert_eq!(
        Err(SwizzleError::InvalidBuffer),
        mask_walk(0x10, 0x40, 2, 2, &source, &mut destination, false, 16)
    );
    assert_eq!(
        Err(SwizzleError::InvalidBuffer),
        mask_walk(0x10, 0x20, 2, 3, &source, &mut destination, true, 16)
    );
    assert_eq!(
        Err(SwizzleError::InvalidBuffer),
        mask_walk(0x10, 0x20, usize::MAX, 2, &source, &mut destination, true, 16)
    );
    assert_eq!(vec![9u8; 64], destination);
}

#[test]
fn walk_with_given_masks() {
    // Masks that swap the two axes of a grid of 2 by 2 tiles of 4 bytes.
    let source: Vec<u8> = (0..16).collect();
    let mut destination = vec![0u8; 16];
    assert_eq!(Ok(()), mask_walk(0b1000, 0b100, 2, 2, &source, &mut destination, true, 4));
    assert_eq!(vec![0, 1, 2, 3, 8, 9, 10, 11, 4, 5, 6, 7, 12, 13, 14, 15], destination);

    // Masks that overlap: tiles 0 and 2 go to one place, the later one stays;
    // what no tile is put on keeps its bytes.
    let mut destination = vec![0xEEu8; 16];
    assert_eq!(Ok(()), mask_walk(0b100, 0, 2, 2, &source, &mut destination, false, 4));
    assert_eq!(
        vec![8, 9, 10, 11, 12, 13, 14, 15, 0xEE, 0xEE, 0xEE, 0xEE, 0xEE, 0xEE, 0xEE, 0xEE],
        destination
    );
}

#[test]
fn walk_with_mask_callables() {
    let source: Vec<u8> = (0..16).collect();
    let mut destination = vec![0u8; 16];
    let walked = swizzle_experimental(
        |_, _| 0b1000,
        |_, rows| rows << 1,
        2,
        2,
        &source,
        &mut destination,
        true,
        4,
    );
    assert_eq!(Ok(()), walked);
    assert_eq!(vec![0, 1, 2, 3, 8, 9, 10, 11, 4, 5, 6, 7, 12, 13, 14, 15], destination);
}

#[test]
fn masks_share_no_bit() {
    for lw in 0..=10 {
        for lh in 0..=10 {
            let (w, h): (u32, u32) = (1 << lw, 1 << lh);
            assert_eq!(0, swizzle_x_8(w, h) & swizzle_y_8(w, h));
            let apart = (w <= 2 && h <= 2) || (w >= 4 && h >= 4 && (h <= 128 || w <= 256));
            assert_eq!(apart, swizzle_x_16(w, h) & swizzle_y_16(w, h) == 0);
        }
    }
}

// The offsets in the lanes of `mask`, in rising order.
fn lanes(mask: u32) -> Vec<u32> {
    (0..=mask).filter(|offset| offset & mask == *offset).collect()
}

#[test]
fn lane_sums_are_the_tile_offsets() {
    for (w, h, tile, x_mask, y_mask) in [
        (8u32, 8u32, 16u32, swizzle_x_16(8, 8), swizzle_y_16(8, 8)),
        (4, 32, 16, swizzle_x_16(4, 32), swizzle_y_16(4, 32)),
        (2, 2, 16, swizzle_x_16(2, 2), swizzle_y_16(2, 2)),
        (4, 2, 8, swizzle_x_8(4, 2), swizzle_y_8(4, 2)),
        (16, 8, 8, swizzle_x_8(16, 8), swizzle_y_8(16, 8)),
    ] {
        let mut sums: Vec<u32> = Vec::new();
        for x in lanes(x_mask) {
            for y in lanes(y_mask) {
                sums.push(x + y);
            }
        }
        sums.sort();
        let offsets: Vec<u32> = (0..w * h).map(|tile_number| tile_number * tile).collect();
        assert_eq!(offsets, sums);
    }
}

#[test]
fn walk_visits_every_tile_offset_once() {
    // Every tile holds its own number; after swizzling, the tile at offset
    // `16 * k` tells which tile went there.
    let (w, h) = (16usize, 8usize);
    let mut data = Vec::new();
    for tile in 0..(w * h) as u32 {
        for _ in 0..4 {
            data.extend_from_slice(&tile.to_le_bytes());
        }
    }
    let swizzled = swizzle_data(&data, w * 4, h * 4, &ImageFormat::Bc7).unwrap();
    let mut seen = vec![false; w * h];
    for k in 0..w * h {
        let tile = u32::from_le_bytes([
            swizzled[16 * k],
            swizzled[16 * k + 1],
            swizzled[16 * k + 2],
            swizzled[16 * k + 3],
        ]) as usize;
        assert!(!seen[tile]);
        seen[tile] = true;
    }
    assert!(seen.iter().all(|tile| *tile));
}

#[test]
fn masks_of_256_by_256_pixels_of_16_byte_tiles() {
    // 256 pixels are 64 tiles of a block-compressed format.
    assert_eq!(0b1111000100100000, swizzle_x_16(256 / 4, 256 / 4));
    assert_eq!(0b111011010000, swizzle_y_16(256 / 4, 256 / 4));
    // The x mask of twice the size.
    assert_eq!(0b111110000100100000, swizzle_x_16(512 / 4, 512 / 4));
}

#[test]
fn masks_of_32_by_32_pixels_of_8_byte_tiles() {
    assert_eq!(0b100101000, swizzle_x_8(32 / 4, 32 / 4));
    assert_eq!(0b11010000, swizzle_y_8(32 / 4, 32 / 4));
}

#[test]
fn masks_of_small_grids_of_16_byte_tiles() {
    assert_eq!(0b10000, swizzle_x_16(2, 2));
    assert_eq!(0b100000, swizzle_y_16(2, 2));
    assert_eq!(0b100100000, swizzle_x_16(4, 4));
    assert_eq!(0b1010000, swizzle_y_16(4, 4));
    assert_eq!(0b1100100000, swizzle_x_16(8, 8));
    assert_eq!(0b11010000, swizzle_y_16(8, 8));
    assert_eq!(0b10000, swizzle_x_16(1, 1));
    assert_eq!(0b100000, swizzle_y_16(1, 1));
    assert_eq!(0b10000, swizzle_x_16(0, 0));
}

#[test]
fn masks_of_grids_that_are_not_square() {
    // The x mask depends on the height: the upper bits follow the y bits.
    assert_eq!(0b11000100100000, swizzle_x_16(16, 64));
    assert_eq!(0b110100100000, swizzle_x_16(16, 16));
    assert_eq!(0, swizzle_x_8(1, 1));
    assert_eq!(0, swizzle_y_8(1, 1));
    assert_eq!(0b1000, swizzle_x_8(2, 1));
    // The width counts from its highest bit only.
    assert_eq!(swizzle_x_16(16, 8), swizzle_x_16(31, 15));
    assert_eq!(swizzle_y_8(8, 8), swizzle_y_8(8, 15));
}

#[test]
fn walk_over_no_tiles_copies_nothing() {
    let source = pattern(32);
    let mut destination = vec![5u8; 32];
    assert_eq!(Ok(()), mask_walk(0x10, 0x20, 0, usize::MAX, &source, &mut destination, true, 16));
    assert_eq!(Ok(()), mask_walk(0x10, 0x20, usize::MAX, 0, &source, &mut destination, false, 16));
    assert_eq!(Ok(()), mask_walk(0x10, 0x20, 0, 0, &[], &mut [], false, 16));
    assert_eq!(vec![5u8; 32], destination);
    // The lengths are held to the tile size all the same.
    assert_eq!(
        Err(SwizzleError::InvalidBuffer),
        mask_walk(0x10, 0x20, 0, 0, &source[..5], &mut destination, false, 16)
    );
}
