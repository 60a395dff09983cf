use nutexb_swizzle::patterns::{has_patterns, write_lut_csv};
use nutexb_swizzle::{
    create_deswizzle_luts, create_mip_deswizzle_lut, deswizzle_data, get_mipmap_range,
    get_swizzle_patterns_output, guess_swizzle_patterns, read_mipmaps_dds, read_vec,
    swizzle_x_16, swizzle_x_8, swizzle_y_16, swizzle_y_8, write_bc1_lut, write_bc7_lut,
    DdsLayout, ImageFormat, SwizzleError,
};

#[test]
fn blocks_are_read_in_little_endian_order() {
    let bytes: Vec<u8> = (1..=16).collect();
    assert_eq!(
        vec![0x04030201u128, 0x08070605, 0x0c0b0a09, 0x100f0e0d],
        read_vec(&bytes, &ImageFormat::Rgba8)
    );
    assert_eq!(
        vec![0x0807060504030201u128, 0x100f0e0d0c0b0a09],
        read_vec(&bytes, &ImageFormat::Bc1)
    );
    assert_eq!(
        vec![0x100f0e0d0c0b0a090807060504030201u128],
        read_vec(&bytes, &ImageFormat::Bc7)
    );
    assert_eq!(
        vec![0x100f0e0d0c0b0a090807060504030201u128],
        read_vec(&bytes, &ImageFormat::Bc3)
    );
    assert_eq!(
        vec![0x100f0e0d0c0b0a090807060504030201u128],
        read_vec(&bytes, &ImageFormat::RgbaF32)
    );
}

#[test]
fn bytes_that_fill_no_block_are_left_out() {
    let bytes: Vec<u8> = (1..=23).collect();
    assert_eq!(5, read_vec(&bytes, &ImageFormat::Rgba8).len());
    assert_eq!(2, read_vec(&bytes, &ImageFormat::Bc1).len());
    assert_eq!(1, read_vec(&bytes, &ImageFormat::Bc7).len());
    assert_eq!(Vec::<u128>::new(), read_vec(&bytes[..15], &ImageFormat::Bc7));
    assert_eq!(Vec::<u128>::new(), read_vec(&[], &ImageFormat::Rgba8));
    assert_eq!(vec![u128::MAX], read_vec(&[0xff; 16], &ImageFormat::Bc7));
}

#[test]
fn table_of_a_rearranged_probe_is_a_permutation() {
    let linear = [10u128, 20, 30, 40, 50];
    let deswizzled = [30u128, 10, 50, 20, 40];
    assert_eq!(vec![2i64, 0, 4, 1, 3], create_mip_deswizzle_lut(&linear, &deswizzled));
    assert_eq!(vec![0i64, 1, 2, 3, 4], create_mip_deswizzle_lut(&linear, &linear));
}

#[test]
fn table_of_a_large_probe_is_a_permutation() {
    let linear: Vec<u128> = (0..5000u128).map(|i| i * i + 7).collect();
    let deswizzled: Vec<u128> = (0..5000usize).map(|i| linear[(i * 2503) % 5000]).collect();
    let lut = create_mip_deswizzle_lut(&linear, &deswizzled);
    let expected: Vec<i64> = (0..5000i64).map(|i| (i * 2503) % 5000).collect();
    assert_eq!(expected, lut);
    let mut sorted = lut.clone();
    sorted.sort();
    assert_eq!((0..5000i64).collect::<Vec<i64>>(), sorted);
}

#[test]
fn missing_block_gives_the_sentinel() {
    let linear = [10u128, 20, 30];
    let deswizzled = [20u128, 99, 10, 0];
    assert_eq!(vec![1i64, -1, 0, -1], create_mip_deswizzle_lut(&linear, &deswizzled));
    assert_eq!(vec![-1i64, -1], create_mip_deswizzle_lut(&[], &[1, 2]));
    assert_eq!(Vec::<i64>::new(), create_mip_deswizzle_lut(&linear, &[]));
    assert_eq!(-1, nutexb_swizzle::lut::MISSING);
}

#[test]
fn repeated_block_counts_at_its_last_place() {
    let linear = [7u128, 8, 7, 9, 8];
    let deswizzled = [7u128, 8, 9];
    assert_eq!(vec![2i64, 4, 3], create_mip_deswizzle_lut(&linear, &deswizzled));
}

#[test]
fn tables_of_two_chains_go_level_by_level() {
    let linear = vec![vec![1u128, 2, 3, 4], vec![5, 6], vec![7]];
    let deswizzled = vec![vec![4u128, 3, 2, 1], vec![6, 5]];
    assert_eq!(
        vec![vec![3i64, 2, 1, 0], vec![1, 0]],
        create_deswizzle_luts(&linear, &deswizzled)
    );
    assert_eq!(vec![vec![3i64, 2, 1, 0]], create_deswizzle_luts(&linear[..1], &deswizzled));
    assert_eq!(Vec::<Vec<i64>>::new(), create_deswizzle_luts(&[], &deswizzled));
}

#[test]
fn range_of_a_table() {
    assert_eq!((3, 3), get_mipmap_range(&[3]));
    assert_eq!((-1, 12), get_mipmap_range(&[5, -1, 12, 0, 12]));
    assert_eq!((256, 319), get_mipmap_range(&[300, 256, 319, 257]));
    assert_eq!((i64::MIN, i64::MAX), get_mipmap_range(&[0, i64::MAX, i64::MIN]));
}

#[test]
fn patterns_of_a_table() {
    // 2 by 2 tiles: the x pattern stands at place 1, the y pattern at place 2.
    assert_eq!(
        "width: 8, height: 8\nx: 00000000000000000000000000000001\ny: 00000000000000000000000000000010",
        get_swizzle_patterns_output(&[0, 1, 2, 3], 8, 8, 4)
    );
    // 4 by 2 tiles: places 3 and 4.
    assert_eq!(
        "width: 16, height: 8\nx: 00000000000000000000000000000101\ny: 00000000000000000000000000001010",
        get_swizzle_patterns_output(&[0, 1, 4, 5, 10, 11, 14, 15], 16, 8, 4)
    );
    // One pixel is one tile.
    assert_eq!(
        "width: 1024, height: 2\nx: 00000000000000000000001111111111\ny: 00000000000000000010000000000000",
        get_swizzle_patterns_output(
            &(0..2048).map(|i| if i == 1024 { 8192 } else { i }).collect::<Vec<i64>>(),
            1024,
            2,
            1
        )
    );
}

#[test]
fn patterns_of_a_grid_of_one_column_or_one_row() {
    assert_eq!(
        "width: 4, height: 4\nx: 00000000000000000000000000000111\ny: 00000000000000000000000000000111",
        get_swizzle_patterns_output(&[7], 4, 4, 4)
    );
    assert_eq!(
        "width: 7, height: 12\nx: 00000000000000000000000000000101\ny: 00000000000000000000000000000011",
        get_swizzle_patterns_output(&[5, 6, 3], 7, 12, 4)
    );
    assert_eq!(
        "width: 12, height: 7\nx: 00000000000000000000000000000011\ny: 00000000000000000000000000000101",
        get_swizzle_patterns_output(&[5, 6, 3], 12, 7, 4)
    );
}

#[test]
fn patterns_of_nothing() {
    assert_eq!("", get_swizzle_patterns_output(&[], 8, 8, 4));
    assert_eq!("", get_swizzle_patterns_output(&[1, 2, 3, 4], 0, 8, 4));
    assert_eq!("", get_swizzle_patterns_output(&[1, 2, 3, 4], 8, 0, 4));
}

#[test]
fn patterns_show_the_low_32_bits() {
    assert_eq!(
        "width: 8, height: 8\nx: 11111111111111111111111111111111\ny: 00000000000000000000000000000001",
        get_swizzle_patterns_output(&[0, -1, 0x7_0000_0001, 3], 8, 8, 4)
    );
}

#[test]
fn table_with_the_pattern_places() {
    assert!(has_patterns(4, 8, 8, 4));
    assert!(!has_patterns(2, 8, 8, 4));
    assert!(!has_patterns(1, 8, 4, 4));
    assert!(has_patterns(2, 8, 4, 4));
    assert!(has_patterns(0, 8, 8, 4));
    assert!(has_patterns(1, 0, 8, 4));
    assert!(has_patterns(1, 3, 3, 4));
    assert!(!has_patterns(9, usize::MAX, usize::MAX, 1));
}

fn bc7_probe(blocks: usize) -> Vec<u8> {
    let mut probe = Vec::new();
    write_bc7_lut(&mut probe, blocks);
    probe
}

fn shown(width: usize, height: usize, x_mask: u32, y_mask: u32, tile: u32) -> String {
    format!(
        "width: {}, height: {}\nx: {:032b}\ny: {:032b}",
        width,
        height,
        x_mask / tile,
        y_mask / tile
    )
}

#[test]
fn patterns_of_a_probe_show_the_masks_bc7() {
    for (w, h) in [(2usize, 2usize), (16, 16), (4, 32), (64, 8), (256, 256)] {
        let probe = bc7_probe(w * h);
        let linear = deswizzle_data(&probe, w * 4, h * 4, &ImageFormat::Bc7).unwrap();
        let texts = guess_swizzle_patterns(
            &[read_vec(&probe, &ImageFormat::Bc7)],
            &[read_vec(&linear, &ImageFormat::Bc7)],
            w * 4,
            h * 4,
            &ImageFormat::Bc7,
        )
        .unwrap();
        let x_mask = swizzle_x_16(w as u32, h as u32);
        let y_mask = swizzle_y_16(w as u32, h as u32);
        assert_eq!(vec![shown(w * 4, h * 4, x_mask, y_mask, 16)], texts);
    }
}

#[test]
fn patterns_of_a_probe_show_the_masks_bc1() {
    for (w, h) in [(2usize, 2usize), (4, 2), (4, 8), (32, 32), (8, 128)] {
        let mut probe = Vec::new();
        write_bc1_lut(&mut probe, w * h);
        let linear = deswizzle_data(&probe, w * 4, h * 4, &ImageFormat::Bc1).unwrap();
        let texts = guess_swizzle_patterns(
            &[read_vec(&probe, &ImageFormat::Bc1)],
            &[read_vec(&linear, &ImageFormat::Bc1)],
            w * 4,
            h * 4,
            &ImageFormat::Bc1,
        )
        .unwrap();
        let x_mask = swizzle_x_8(w as u32, h as u32);
        let y_mask = swizzle_y_8(w as u32, h as u32);
        assert_eq!(vec![shown(w * 4, h * 4, x_mask, y_mask, 8)], texts);
    }
}

#[test]
fn one_probe_for_a_chain_of_levels() {
    // A probe of 256 + 64 + 16 + 4 + 1 blocks: 64 by 64 pixels, then 32 by
    // 32, and so on down to one tile; the levels after that have no tile.
    let probe = bc7_probe(341);
    let first = deswizzle_data(&probe[..256 * 16], 64, 64, &ImageFormat::Bc7).unwrap();
    let second = deswizzle_data(&probe[256 * 16..320 * 16], 32, 32, &ImageFormat::Bc7).unwrap();
    let chain = vec![
        read_vec(&first, &ImageFormat::Bc7),
        read_vec(&second, &ImageFormat::Bc7),
        read_vec(&probe[320 * 16..336 * 16], &ImageFormat::Bc7),
        read_vec(&probe[336 * 16..340 * 16], &ImageFormat::Bc7),
        read_vec(&probe[340 * 16..], &ImageFormat::Bc7),
        vec![],
        vec![1, 2, 3],
    ];
    let texts = guess_swizzle_patterns(
        &[read_vec(&probe, &ImageFormat::Bc7)],
        &chain,
        64,
        64,
        &ImageFormat::Bc7,
    )
    .unwrap();
    assert_eq!(7, texts.len());
    assert_eq!(
        format!(
            "Start Index: 0\nEnd Index: 255\n{}\n",
            shown(64, 64, swizzle_x_16(16, 16), swizzle_y_16(16, 16), 16)
        ),
        texts[0]
    );
    assert_eq!(
        "Start Index: 0\nEnd Index: 255\nwidth: 64, height: 64\nx: 00000000000000000000000011010010\ny: 00000000000000000000000000101101\n",
        texts[0]
    );
    assert_eq!(
        format!(
            "Start Index: 256\nEnd Index: 319\n{}\n",
            shown(32, 32, swizzle_x_16(8, 8), swizzle_y_16(8, 8), 16)
        ),
        texts[1]
    );
    assert_eq!(
        "Start Index: 320\nEnd Index: 335\nwidth: 16, height: 16\nx: 00000000000000000000000000000011\ny: 00000000000000000000000000001100\n",
        texts[2]
    );
    assert_eq!(
        "Start Index: 336\nEnd Index: 339\nwidth: 8, height: 8\nx: 00000000000000000000000000000001\ny: 00000000000000000000000000000010\n",
        texts[3]
    );
    assert_eq!(
        "Start Index: 340\nEnd Index: 340\nwidth: 4, height: 4\nx: 00000000000000000000000000000000\ny: 00000000000000000000000000000000\n",
        texts[4]
    );
    assert_eq!("", texts[5]);
    assert_eq!("", texts[6]);
}

#[test]
fn level_with_too_few_blocks_is_an_invalid_buffer() {
    let probe = read_vec(&bc7_probe(64), &ImageFormat::Bc7);
    // Two levels against one probe; the second level is empty.
    assert_eq!(
        Err(SwizzleError::InvalidBuffer),
        guess_swizzle_patterns(
            &[probe.clone()],
            &[probe.clone(), vec![]],
            32,
            32,
            &ImageFormat::Bc7
        )
    );
    // A table of 64 entries has no entry for the last row of 16 by 16 tiles.
    assert_eq!(
        Err(SwizzleError::InvalidBuffer),
        guess_swizzle_patterns(&[probe.clone()], &[probe.clone()], 64, 64, &ImageFormat::Bc7)
    );
    assert_eq!(
        Err(SwizzleError::InvalidBuffer),
        guess_swizzle_patterns(
            &[probe.clone()],
            &[probe.clone(), probe.clone()],
            64,
            64,
            &ImageFormat::Bc7
        )
    );
}

#[test]
fn missing_blocks_show_in_the_range() {
    let probe = vec![10u128, 11, 12, 13];
    let texts = guess_swizzle_patterns(
        &[probe],
        &[vec![12, 99, 13, 11], vec![10], vec![99]],
        2,
        2,
        &ImageFormat::Rgba8,
    )
    .unwrap();
    assert_eq!(
        vec![
            "Start Index: -1\nEnd Index: 3\nwidth: 2, height: 2\nx: 00000000000000000000000000000000\ny: 00000000000000000000000000000100\n",
            "Start Index: 0\nEnd Index: 0\nwidth: 1, height: 1\nx: 00000000000000000000000000000000\ny: 00000000000000000000000000000000\n",
            ""
        ],
        texts
    );
}

#[test]
fn levels_of_two_chains() {
    let texts = guess_swizzle_patterns(
        &[vec![1u128, 2, 3, 4], vec![5], vec![6]],
        &[vec![1u128, 3, 2, 4], vec![5]],
        2,
        2,
        &ImageFormat::RgbaF32,
    )
    .unwrap();
    assert_eq!(
        vec![
            "width: 2, height: 2\nx: 00000000000000000000000000000010\ny: 00000000000000000000000000000001",
            "width: 1, height: 1\nx: 00000000000000000000000000000000\ny: 00000000000000000000000000000000"
        ],
        texts
    );
    assert_eq!(
        Ok(Vec::<String>::new()),
        guess_swizzle_patterns(&[], &[], 2, 2, &ImageFormat::Bc7)
    );
}

#[test]
fn small_levels_are_left_out() {
    // A compressed level of less than 4 pixels has no tile.
    let texts = guess_swizzle_patterns(
        &[vec![1u128, 2, 3, 4], vec![5]],
        &[vec![4u128, 3, 2, 1], vec![5]],
        8,
        8,
        &ImageFormat::Bc3,
    )
    .unwrap();
    assert_eq!(
        vec![
            "width: 8, height: 8\nx: 00000000000000000000000000000010\ny: 00000000000000000000000000000001",
            "width: 4, height: 4\nx: 00000000000000000000000000000000\ny: 00000000000000000000000000000000"
        ],
        texts
    );
    let texts = guess_swizzle_patterns(
        &[vec![1u128], vec![5]],
        &[vec![1u128], vec![5]],
        4,
        7,
        &ImageFormat::Bc3,
    )
    .unwrap();
    assert_eq!(
        vec![
            "width: 4, height: 7\nx: 00000000000000000000000000000000\ny: 00000000000000000000000000000000",
            ""
        ],
        texts
    );
}

#[test]
fn table_as_csv() {
    assert_eq!("", write_lut_csv(&[]));
    assert_eq!("0,2\n1,0\n2,-1\n3,1\n", write_lut_csv(&[2, 0, -1, 1]));
    let lut: Vec<i64> = (0..12).map(|i| 1000 - i).collect();
    assert!(write_lut_csv(&lut).ends_with("9,991\n10,990\n11,989\n"));
    assert_eq!(
        "0,9223372036854775807\n1,-9223372036854775808\n",
        write_lut_csv(&[i64::MAX, i64::MIN])
    );
}

fn layout(main: Option<u32>, min: u32, levels: u32, data: Vec<u8>) -> DdsLayout {
    DdsLayout {
        main_texture_size: main,
        min_mipmap_size: min,
        num_mipmap_levels: levels,
        data,
    }
}

#[test]
fn mip_levels_of_a_payload() {
    let data: Vec<u8> = (0..64).collect();
    // Level 0 takes bytes 0..32, level 1 bytes 32..40 and, with the least
    // size, the place up to 48, level 2 bytes 48..50.
    let levels = read_mipmaps_dds(&layout(Some(32), 16, 3, data.clone()), &ImageFormat::Rgba8)
        .unwrap();
    assert_eq!(3, levels.len());
    assert_eq!(read_vec(&data[0..32], &ImageFormat::Rgba8), levels[0]);
    assert_eq!(vec![0x23222120u128, 0x27262524], levels[1]);
    assert_eq!(Vec::<u128>::new(), levels[2]);

    let levels = read_mipmaps_dds(&layout(Some(32), 0, 3, data.clone()), &ImageFormat::Bc1)
        .unwrap();
    assert_eq!(
        vec![
            read_vec(&data[0..32], &ImageFormat::Bc1),
            vec![0x2726252423222120u128],
            vec![]
        ],
        levels
    );
    assert_eq!(
        Ok(Vec::<Vec<u128>>::new()),
        read_mipmaps_dds(&layout(Some(1000), 16, 0, data.clone()), &ImageFormat::Bc7)
    );
    assert_eq!(
        Ok(vec![read_vec(&data, &ImageFormat::Bc7)]),
        read_mipmaps_dds(&layout(Some(64), 16, 1, data), &ImageFormat::Bc7)
    );
}

#[test]
fn payload_that_ends_early_is_a_truncated_container() {
    let data: Vec<u8> = (0..49).collect();
    assert_eq!(
        Err(SwizzleError::TruncatedContainer),
        read_mipmaps_dds(&layout(Some(32), 16, 3, data.clone()), &ImageFormat::Rgba8)
    );
    assert_eq!(
        Err(SwizzleError::TruncatedContainer),
        read_mipmaps_dds(&layout(Some(50), 16, 1, data.clone()), &ImageFormat::Rgba8)
    );
    assert_eq!(
        Err(SwizzleError::TruncatedContainer),
        read_mipmaps_dds(&layout(Some(u32::MAX), u32::MAX, u32::MAX, data.clone()), &ImageFormat::Bc7)
    );
    assert!(read_mipmaps_dds(&layout(Some(32), 16, 2, data), &ImageFormat::Rgba8).is_ok());
}

#[test]
fn header_without_a_size_is_an_invalid_container() {
    assert_eq!(
        Err(SwizzleError::InvalidContainer),
        read_mipmaps_dds(&layout(None, 16, 1, vec![0; 64]), &ImageFormat::Bc7)
    );
    assert_eq!(
        Err(SwizzleError::InvalidContainer),
        read_mipmaps_dds(&layout(None, 0, 0, vec![]), &ImageFormat::Bc7)
    );
}
