use nutexb_swizzle::{swizzle_x_16, swizzle_x_8, swizzle_y_16, swizzle_y_8};

fn test_swizzle(a: u32, b: u32) {
    assert_eq!(a, b, "{:b} != {:b}", a, b);
}

#[test]
fn swizzle_x_16_power2() {
    // These are left shifted by 4 since tiles are 16 bytes.
    test_swizzle(0b10000, swizzle_x_16(8 / 4, 8 / 4));
    test_swizzle(0b100100000, swizzle_x_16(16 / 4, 16 / 4));
    test_swizzle(0b1100100000, swizzle_x_16(32 / 4, 32 / 4));
    test_swizzle(0b110100100000, swizzle_x_16(64 / 4, 64 / 4));
    test_swizzle(0b11100100100000, swizzle_x_16(128 / 4, 128 / 4));
    test_swizzle(0b1111000100100000, swizzle_x_16(256 / 4, 256 / 4));
    test_swizzle(0b111110000100100000, swizzle_x_16(512 / 4, 512 / 4));
    test_swizzle(0b1111110000100100000, swizzle_x_16(1024 / 4, 1024 / 4));
}

#[test]
fn swizzle_y_16_power2() {
    // These are left shifted by 4 since tiles are 16 bytes.
    test_swizzle(0b100000, swizzle_y_16(8 / 4, 8 / 4));
    test_swizzle(0b1010000, swizzle_y_16(16 / 4, 16 / 4));
    test_swizzle(0b11010000, swizzle_y_16(32 / 4, 32 / 4));
    test_swizzle(0b1011010000, swizzle_y_16(64 / 4, 64 / 4));
    test_swizzle(0b11011010000, swizzle_y_16(128 / 4, 128 / 4));
    test_swizzle(0b111011010000, swizzle_y_16(256 / 4, 256 / 4));
    test_swizzle(0b1111011010000, swizzle_y_16(512 / 4, 512 / 4));
    test_swizzle(0b10000001111011010000, swizzle_y_16(1024 / 4, 1024 / 4));
}

#[test]
fn swizzle_x_8_power2() {
    // These are left shifted by 3 since tiles are 8 bytes.
    test_swizzle(0b1000, swizzle_x_8(8 / 4, 8 / 4));
    test_swizzle(0b101000, swizzle_x_8(16 / 4, 16 / 4));
    test_swizzle(0b100101000, swizzle_x_8(32 / 4, 32 / 4));
    test_swizzle(0b10100101000, swizzle_x_8(64 / 4, 64 / 4));
    test_swizzle(0b1100100101000, swizzle_x_8(128 / 4, 128 / 4));
    test_swizzle(0b111000100101000, swizzle_x_8(256 / 4, 256 / 4));
    test_swizzle(0b11110000100101000, swizzle_x_8(512 / 4, 512 / 4));
}

#[test]
fn swizzle_y_8_power2() {
    // These are left shifted by 3 since tiles are 8 bytes.
    test_swizzle(0b10000, swizzle_y_8(8 / 4, 8 / 4));
    test_swizzle(0b1010000, swizzle_y_8(16 / 4, 16 / 4));
    test_swizzle(0b11010000, swizzle_y_8(32 / 4, 32 / 4));
    test_swizzle(0b1011010000, swizzle_y_8(64 / 4, 64 / 4));
    test_swizzle(0b11011010000, swizzle_y_8(128 / 4, 128 / 4));
    test_swizzle(0b111011010000, swizzle_y_8(256 / 4, 256 / 4));
    test_swizzle(0b1111011010000, swizzle_y_8(512 / 4, 512 / 4));
}
