use nutexb_swizzle::payload::get_block_count;
use nutexb_swizzle::text::{append_binary, append_decimal, append_signed_decimal};
use nutexb_swizzle::{
    read_vec, write_bc1_lut, write_bc3_lut, write_bc7_lut, write_rgba_lut, ImageFormat,
};

#[test]
fn rgba_payload() {
    let mut writer = vec![0xAA];
    write_rgba_lut(&mut writer, 3);
    assert_eq!(vec![0xAA, 0, 0, 0, 0, 1, 0, 0, 0, 2, 0, 0, 0], writer);
    let mut writer = Vec::new();
    write_rgba_lut(&mut writer, 258);
    assert_eq!(258 * 4, writer.len());
    assert_eq!([1, 1, 0, 0], writer[257 * 4..]);
    let mut writer = Vec::new();
    write_rgba_lut(&mut writer, 0);
    assert_eq!(Vec::<u8>::new(), writer);
}

#[test]
fn bc1_payload() {
    let mut writer = Vec::new();
    write_bc1_lut(&mut writer, 2);
    assert_eq!(vec![0, 0, 0, 0, 0, 0, 0, 0, 0, 0, 0, 0, 1, 0, 0, 0], writer);
    let mut writer = Vec::new();
    write_bc1_lut(&mut writer, 0x1_0203);
    assert_eq!([0, 0, 0, 0, 2, 2, 1, 0], writer[0x1_0202 * 8..]);
}

#[test]
fn bc3_payload() {
    let mut writer = Vec::new();
    write_bc3_lut(&mut writer, 2);
    assert_eq!(
        vec![
            0xff, 0xff, 0, 0, 0, 0, 0, 0, 0, 0, 0, 0, 0, 0, 0, 0, 0xff, 0xff, 0, 0, 0, 0, 0, 0, 1,
            0, 0, 0, 0, 0, 0, 0
        ],
        writer
    );
}

#[test]
fn bc7_payload() {
    let mut writer = Vec::new();
    write_bc7_lut(&mut writer, 2);
    assert_eq!(
        vec![
            0, 0, 0, 0, 0, 0, 0, 0, 0, 0, 0, 0, 2, 0, 0, 0, 0, 0, 0, 0, 1, 0, 0, 0, 0, 0, 0, 0, 2,
            0, 0, 0
        ],
        writer
    );
    let mut writer = Vec::new();
    write_bc7_lut(&mut writer, 300);
    assert_eq!([0, 0, 0, 0, 0x2b, 1, 0, 0, 0, 0, 0, 0, 2, 0, 0, 0], writer[299 * 16..]);
}

#[test]
fn blocks_of_a_payload_are_distinct() {
    let mut rgba = Vec::new();
    write_rgba_lut(&mut rgba, 1000);
    let mut bc1 = Vec::new();
    write_bc1_lut(&mut bc1, 1000);
    let mut bc3 = Vec::new();
    write_bc3_lut(&mut bc3, 1000);
    let mut bc7 = Vec::new();
    write_bc7_lut(&mut bc7, 1000);
    for (payload, format) in [
        (rgba, ImageFormat::Rgba8),
        (bc1, ImageFormat::Bc1),
        (bc3, ImageFormat::Bc3),
        (bc7, ImageFormat::Bc7),
    ] {
        let mut blocks = read_vec(&payload, &format);
        assert_eq!(1000, blocks.len());
        blocks.sort();
        blocks.dedup();
        assert_eq!(1000, blocks.len());
    }
}

#[test]
fn block_counts() {
    assert_eq!(64 * 64, get_block_count(&ImageFormat::Rgba8, 64, 64, None));
    assert_eq!(64 * 32, get_block_count(&ImageFormat::RgbaF32, 64, 32, None));
    assert_eq!(256, get_block_count(&ImageFormat::Bc1, 64, 64, None));
    assert_eq!(256, get_block_count(&ImageFormat::Bc3, 64, 64, None));
    assert_eq!(3, get_block_count(&ImageFormat::Bc7, 7, 7, None));
    assert_eq!(25, get_block_count(&ImageFormat::Rgba8, 64, 64, Some(100)));
    assert_eq!(12, get_block_count(&ImageFormat::Bc1, 64, 64, Some(100)));
    assert_eq!(6, get_block_count(&ImageFormat::Bc7, 0, 0, Some(100)));
    assert_eq!(6, get_block_count(&ImageFormat::RgbaF32, 0, 0, Some(111)));
}

#[test]
fn decimal_digits() {
    let mut text = String::from("n=");
    append_decimal(&mut text, 0);
    text.push(' ');
    append_decimal(&mut text, 7);
    text.push(' ');
    append_decimal(&mut text, 10);
    text.push(' ');
    append_decimal(&mut text, 1024);
    text.push(' ');
    append_decimal(&mut text, u64::MAX);
    assert_eq!("n=0 7 10 1024 18446744073709551615", text);
}

#[test]
fn signed_decimal_digits() {
    let mut text = String::new();
    append_signed_decimal(&mut text, -1);
    text.push(' ');
    append_signed_decimal(&mut text, 0);
    text.push(' ');
    append_signed_decimal(&mut text, 319);
    text.push(' ');
    append_signed_decimal(&mut text, i64::MIN);
    assert_eq!("-1 0 319 -9223372036854775808", text);
}

#[test]
fn binary_digits() {
    let mut text = String::new();
    append_binary(&mut text, 0b1011, 4);
    text.push(' ');
    append_binary(&mut text, 0b1011, 6);
    text.push(' ');
    append_binary(&mut text, 0b1011, 2);
    text.push(' ');
    append_binary(&mut text, 5, 0);
    text.push(' ');
    append_binary(&mut text, 0x8000_0001, 32);
    assert_eq!("1011 001011 11  10000000000000000000000000000001", text);
}
