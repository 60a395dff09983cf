//! The closed set of supported pixel formats and the quantities derived from
//! them.

use vstd::prelude::*;
use vstd::string::*;

verus! {

/// A supported pixel format.
#[derive(Clone, Copy, Debug, PartialEq, Eq, Structural)]
pub enum ImageFormat {
    Rgba8,
    RgbaF32,
    Bc1,
    Bc3,
    Bc7,
}

/// The number of bytes in one tile of `format`.
pub open spec fn tile_size(format: ImageFormat) -> nat {
    match format {
        ImageFormat::Rgba8 => 4,
        ImageFormat::Bc1 => 8,
        ImageFormat::RgbaF32 | ImageFormat::Bc3 | ImageFormat::Bc7 => 16,
    }
}

/// The edge of one tile of `format` in pixels: one for the uncompressed
/// formats, four for the block-compressed ones.
pub open spec fn tile_edge(format: ImageFormat) -> nat {
    match format {
        ImageFormat::Rgba8 | ImageFormat::RgbaF32 => 1,
        ImageFormat::Bc1 | ImageFormat::Bc3 | ImageFormat::Bc7 => 4,
    }
}

/// The tag that stands for `format` in the header of the container.
pub open spec fn format_tag(format: ImageFormat) -> u32 {
    match format {
        ImageFormat::Rgba8 => 0,
        ImageFormat::Bc1 => 128,
        ImageFormat::Bc3 => 160,
        ImageFormat::Bc7 => 224,
        ImageFormat::RgbaF32 => 52,
    }
}

/// `c` in lower case, where it is an upper-case ASCII letter.
pub open spec fn ascii_lower(c: char) -> char {
    if 'A' <= c <= 'Z' {
        ((c as u8) + 32) as char
    } else {
        c
    }
}

/// `text` is `name` but for the case of ASCII letters; `name` is in lower case.
pub open spec fn names(text: Seq<char>, name: Seq<char>) -> bool {
    &&& text.len() == name.len()
    &&& forall|i: int| 0 <= i < name.len() ==> ascii_lower(#[trigger] text[i]) == name[i]
}

/// The format that `text` names, if any.
pub open spec fn named_format(text: Seq<char>) -> Option<ImageFormat> {
    if names(text, "rgba8"@) {
        Some(ImageFormat::Rgba8)
    } else if names(text, "rgbaf32"@) {
        Some(ImageFormat::RgbaF32)
    } else if names(text, "bc1"@) {
        Some(ImageFormat::Bc1)
    } else if names(text, "bc3"@) {
        Some(ImageFormat::Bc3)
    } else if names(text, "bc7"@) {
        Some(ImageFormat::Bc7)
    } else {
        None
    }
}

/// The number of bytes in one tile of `format`: 4, 8 or 16.
pub fn get_tile_size(format: &ImageFormat) -> (size: usize)
    ensures
        size == tile_size(*format),
{
    match format {
        ImageFormat::Rgba8 => 4,
        ImageFormat::RgbaF32 => 16,
        ImageFormat::Bc1 => 8,
        ImageFormat::Bc3 | ImageFormat::Bc7 => 16,
    }
}

/// The edge of one tile of `format` in pixels: 1 or 4.
pub fn get_tile_edge(format: &ImageFormat) -> (edge: usize)
    ensures
        edge == tile_edge(*format),
{
    match format {
        ImageFormat::Rgba8 | ImageFormat::RgbaF32 => 1,
        ImageFormat::Bc1 | ImageFormat::Bc3 | ImageFormat::Bc7 => 4,
    }
}

/// The tag that stands for `format` in the header of the container.
pub fn get_format_tag(format: &ImageFormat) -> (tag: u32)
    ensures
        tag == format_tag(*format),
{
    match format {
        ImageFormat::Rgba8 => 0,
        ImageFormat::Bc1 => 128,
        ImageFormat::Bc3 => 160,
        ImageFormat::Bc7 => 224,
        ImageFormat::RgbaF32 => 52,
    }
}

/// Tells whether the ASCII text `text` is `name` but for the case of letters.
fn is_named(text: &str, name: &str) -> (same: bool)
    requires
        text.is_ascii(),
        name.is_ascii(),
    ensures
        same == names(text@, name@),
{
    proof {
        is_ascii_spec_bytes(text);
        is_ascii_spec_bytes(name);
        assert(text.spec_bytes().len() == text@.len());
        assert(name.spec_bytes().len() == name@.len());
    }
    let length: usize = text.as_bytes().len();
    if length != name.as_bytes().len() {
        return false;
    }
    let mut i: usize = 0;
    while i < length
        invariant
            text.is_ascii(),
            name.is_ascii(),
            i <= length,
            length == text@.len() == name@.len(),
            forall|k: int| 0 <= k < i ==> ascii_lower(#[trigger] text@[k]) == name@[k],
        decreases length - i,
    {
        let c: u8 = text.get_ascii(i);
        let lowered: u8 = if 65 <= c && c <= 90 {
            c + 32
        } else {
            c
        };
        if lowered != name.get_ascii(i) {
            assert(ascii_lower(text@[i as int]) != name@[i as int]);
            return false;
        }
        i += 1;
    }
    true
}

/// The format that `format` names: one of `rgba8`, `rgbaf32`, `bc1`, `bc3` and
/// `bc7`, in any case of letters. Any other text is an unsupported format.
pub fn try_get_image_format(format: &str) -> (result: Result<ImageFormat, &'static str>)
    ensures
        match named_format(format@) {
            Some(named) => result == Ok::<ImageFormat, &'static str>(named),
            None => result is Err && result->Err_0@ == "Unsupported format"@,
        },
{
    proof {
        reveal_strlit("rgba8");
        reveal_strlit("rgbaf32");
        reveal_strlit("bc1");
        reveal_strlit("bc3");
        reveal_strlit("bc7");
    }
    if !format.is_ascii() {
        proof {
            let i = choose|i: int|
                0 <= i < format@.len() && !('\0' <= #[trigger] format@[i] <= '\u{7f}');
            assert(ascii_lower(format@[i]) == format@[i]);
        }
        return Err("Unsupported format");
    }
    if is_named(format, "rgba8") {
        Ok(ImageFormat::Rgba8)
    } else if is_named(format, "rgbaf32") {
        Ok(ImageFormat::RgbaF32)
    } else if is_named(format, "bc1") {
        Ok(ImageFormat::Bc1)
    } else if is_named(format, "bc3") {
        Ok(ImageFormat::Bc3)
    } else if is_named(format, "bc7") {
        Ok(ImageFormat::Bc7)
    } else {
        Err("Unsupported format")
    }
}

} // verus!
