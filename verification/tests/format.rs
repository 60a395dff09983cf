use nutexb_swizzle::format::get_format_tag;
use nutexb_swizzle::{
    get_tile_edge, get_tile_size, try_get_image_format, ImageFormat, SwizzleError,
};

#[test]
fn format_names() {
    assert_eq!(Ok(ImageFormat::Rgba8), try_get_image_format("rgba8"));
    assert_eq!(Ok(ImageFormat::RgbaF32), try_get_image_format("rgbaf32"));
    assert_eq!(Ok(ImageFormat::Bc1), try_get_image_format("bc1"));
    assert_eq!(Ok(ImageFormat::Bc3), try_get_image_format("bc3"));
    assert_eq!(Ok(ImageFormat::Bc7), try_get_image_format("bc7"));
}

#[test]
fn format_names_in_any_case() {
    assert_eq!(Ok(ImageFormat::Rgba8), try_get_image_format("RGBA8"));
    assert_eq!(Ok(ImageFormat::RgbaF32), try_get_image_format("RgbaF32"));
    assert_eq!(Ok(ImageFormat::Bc1), try_get_image_format("Bc1"));
    assert_eq!(Ok(ImageFormat::Bc3), try_get_image_format("bC3"));
    assert_eq!(Ok(ImageFormat::Bc7), try_get_image_format("BC7"));
}

#[test]
fn unknown_format_names() {
    assert_eq!(Err("Unsupported format"), try_get_image_format(""));
    assert_eq!(Err("Unsupported format"), try_get_image_format("bc2"));
    assert_eq!(Err("Unsupported format"), try_get_image_format("bc7 "));
    assert_eq!(Err("Unsupported format"), try_get_image_format("bc"));
    assert_eq!(Err("Unsupported format"), try_get_image_format("rgba16"));
    assert_eq!(Err("Unsupported format"), try_get_image_format("bc\u{ff17}"));
    // Only ASCII letters have another case here: the Kelvin sign is no `k`.
    assert_eq!(Err("Unsupported format"), try_get_image_format("b\u{212a}1"));
}

#[test]
fn tile_sizes() {
    assert_eq!(4, get_tile_size(&ImageFormat::Rgba8));
    assert_eq!(16, get_tile_size(&ImageFormat::RgbaF32));
    assert_eq!(8, get_tile_size(&ImageFormat::Bc1));
    assert_eq!(16, get_tile_size(&ImageFormat::Bc3));
    assert_eq!(16, get_tile_size(&ImageFormat::Bc7));
}

#[test]
fn tile_edges() {
    assert_eq!(1, get_tile_edge(&ImageFormat::Rgba8));
    assert_eq!(1, get_tile_edge(&ImageFormat::RgbaF32));
    assert_eq!(4, get_tile_edge(&ImageFormat::Bc1));
    assert_eq!(4, get_tile_edge(&ImageFormat::Bc3));
    assert_eq!(4, get_tile_edge(&ImageFormat::Bc7));
}

#[test]
fn format_tags() {
    assert_eq!(0, get_format_tag(&ImageFormat::Rgba8));
    assert_eq!(128, get_format_tag(&ImageFormat::Bc1));
    assert_eq!(160, get_format_tag(&ImageFormat::Bc3));
    assert_eq!(224, get_format_tag(&ImageFormat::Bc7));
    assert_eq!(52, get_format_tag(&ImageFormat::RgbaF32));
}

#[test]
fn error_messages() {
    assert_eq!("Unsupported format", SwizzleError::UnsupportedFormat.message());
    assert_eq!("Invalid buffer", SwizzleError::InvalidBuffer.message());
    assert_eq!("Invalid container", SwizzleError::InvalidContainer.message());
    assert_eq!("Truncated container", SwizzleError::TruncatedContainer.message());
    assert_eq!("I/O failure", SwizzleError::IoFailure.message());
}
