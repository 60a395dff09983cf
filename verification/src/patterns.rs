//! The pattern printer: picks the two entries of an inverse-index table that
//! show the x mask and the y mask, and writes them in binary, for every mip
//! level of a pair of images.

use vstd::prelude::*;
use vstd::string::*;
use crate::error::SwizzleError;
use crate::format::{get_tile_edge, tile_edge, ImageFormat};
use crate::lut::{
    create_deswizzle_luts,
    create_mip_deswizzle_lut,
    deswizzle_lut,
    get_mipmap_range,
    greatest_entry,
    least_entry,
};
use crate::text::{
    append_binary,
    append_decimal,
    append_signed_decimal,
    binary_digits,
    decimal_digits,
    signed_decimal_digits,
};

verus! {

/// The place of the table entry that shows the x mask: the last tile of the
/// first row.
pub open spec fn x_pattern_index(width_in_tiles: nat) -> nat {
    if width_in_tiles > 1 {
        (width_in_tiles - 1) as nat
    } else {
        0
    }
}

/// The place of the table entry that shows the y mask: the first tile of the
/// last row.
pub open spec fn y_pattern_index(width_in_tiles: nat, height_in_tiles: nat) -> nat {
    if height_in_tiles > 1 {
        width_in_tiles * ((height_in_tiles - 1) as nat)
    } else {
        0
    }
}

/// The table has the two entries that show the masks of an image of `width`
/// by `height` pixels, or nothing is written for it.
pub open spec fn patterns_defined(
    lut_len: nat,
    width: nat,
    height: nat,
    tile_dimension: nat,
) -> bool {
    width == 0 || height == 0 || lut_len == 0 || (x_pattern_index(width / tile_dimension)
        < lut_len && y_pattern_index(width / tile_dimension, height / tile_dimension) < lut_len)
}

/// The low 32 bits of a table entry.
pub open spec fn low_32(entry: i64) -> u32 {
    entry as u32
}

/// What is written for a table: the size of the image and the two entries
/// that show the masks, as 32 binary digits each. Nothing for an image
/// without pixels or an empty table.
pub open spec fn patterns_text(
    lut: Seq<i64>,
    width: nat,
    height: nat,
    tile_dimension: nat,
) -> Seq<char> {
    if width == 0 || height == 0 || lut.len() == 0 {
        Seq::empty()
    } else {
        "width: "@ + decimal_digits(width) + ", height: "@ + decimal_digits(height) + "\nx: "@
            + binary_digits(
            low_32(lut[x_pattern_index(width / tile_dimension) as int]) as nat,
            32,
        ) + "\ny: "@ + binary_digits(
            low_32(
                lut[y_pattern_index(width / tile_dimension, height / tile_dimension) as int],
            ) as nat,
            32,
        )
    }
}

/// Tells whether a table of `lut_len` entries has the two entries that show
/// the masks of an image of `width` by `height` pixels.
pub fn has_patterns(lut_len: usize, width: usize, height: usize, tile_dimension: usize) -> (defined:
    bool)
    requires
        tile_dimension > 0,
    ensures
        defined == patterns_defined(
            lut_len as nat,
            width as nat,
            height as nat,
            tile_dimension as nat,
        ),
{
    if width == 0 || height == 0 || lut_len == 0 {
        return true;
    }
    let width_in_tiles: usize = width / tile_dimension;
    let height_in_tiles: usize = height / tile_dimension;
    if width_in_tiles > 1 && width_in_tiles - 1 >= lut_len {
        return false;
    }
    if height_in_tiles > 1 {
        match width_in_tiles.checked_mul(height_in_tiles - 1) {
            Some(index) => index < lut_len,
            None => false,
        }
    } else {
        true
    }
}

/// Writes the size of the image and the two entries of its table that show
/// the x mask and the y mask.
pub fn get_swizzle_patterns_output(
    deswizzle_lut: &[i64],
    width: usize,
    height: usize,
    tile_dimension: usize,
) -> (text: String)
    requires
        tile_dimension > 0,
        patterns_defined(deswizzle_lut@.len(), width as nat, height as nat, tile_dimension as nat),
    ensures
        text@ == patterns_text(deswizzle_lut@, width as nat, height as nat, tile_dimension as nat),
{
    if width == 0 || height == 0 || deswizzle_lut.len() == 0 {
        return String::new();
    }
    let width_in_tiles: usize = width / tile_dimension;
    let height_in_tiles: usize = height / tile_dimension;
    let x_pattern_index: usize = if width_in_tiles > 1 {
        width_in_tiles - 1
    } else {
        0
    };
    let y_pattern_index: usize = if height_in_tiles > 1 {
        width_in_tiles * (height_in_tiles - 1)
    } else {
        0
    };
    let x_entry: u32 = #[verifier::truncate]
    (deswizzle_lut[x_pattern_index] as u32);
    let y_entry: u32 = #[verifier::truncate]
    (deswizzle_lut[y_pattern_index] as u32);
    let mut text = String::from_str("width: ");
    append_decimal(&mut text, width as u64);
    text.append(", height: ");
    append_decimal(&mut text, height as u64);
    text.append("\nx: ");
    append_binary(&mut text, x_entry, 32);
    text.append("\ny: ");
    append_binary(&mut text, y_entry, 32);
    text
}

/// The side of mip level `level` of an image with a side of `pixels` pixels:
/// halved once per level.
pub open spec fn mip_extent(pixels: nat, level: nat) -> nat
    decreases level,
{
    if level == 0 {
        pixels
    } else {
        mip_extent(pixels, (level - 1) as nat) / 2
    }
}

/// The table after its least entry was taken from every entry.
pub open spec fn rebased(lut: Seq<i64>, least: i64) -> Seq<i64> {
    Seq::new(lut.len(), |i: int| lut[i].wrapping_sub(least))
}

/// A mip level of `mip_width` by `mip_height` pixels is left out: a side is
/// less than the edge of a tile.
pub open spec fn level_skipped(mip_width: nat, mip_height: nat, edge: nat) -> bool {
    mip_width < edge || mip_height < edge
}

/// Something can be written for a level whose blocks are looked up in one
/// probe for all levels: the level is left out, or it has blocks and its table
/// has the entries that show the masks.
pub open spec fn probe_level_defined(
    mip_len: nat,
    mip_width: nat,
    mip_height: nat,
    edge: nat,
) -> bool {
    level_skipped(mip_width, mip_height, edge) || (mip_len > 0 && patterns_defined(
        mip_len,
        mip_width,
        mip_height,
        edge,
    ))
}

/// What is written for a level whose blocks are looked up in one probe for
/// all levels: the least and the greatest entry of its table, which are the
/// ends of the level in the probe, and the patterns of the table counted from
/// its least entry. Nothing for a level that is left out.
pub open spec fn probe_level_text(
    probe: Seq<u128>,
    mip: Seq<u128>,
    mip_width: nat,
    mip_height: nat,
    edge: nat,
) -> Seq<char> {
    if level_skipped(mip_width, mip_height, edge) {
        Seq::empty()
    } else {
        let lut = deswizzle_lut(probe, mip);
        "Start Index: "@ + signed_decimal_digits(least_entry(lut) as int) + "\nEnd Index: "@
            + signed_decimal_digits(greatest_entry(lut) as int) + "\n"@ + patterns_text(
            rebased(lut, least_entry(lut)),
            mip_width,
            mip_height,
            edge,
        ) + "\n"@
    }
}

/// Something can be written for a level of a pair of mip chains: the level is
/// left out, or its table has the entries that show the masks.
pub open spec fn paired_level_defined(
    mip_len: nat,
    mip_width: nat,
    mip_height: nat,
    edge: nat,
) -> bool {
    level_skipped(mip_width, mip_height, edge) || patterns_defined(
        mip_len,
        mip_width,
        mip_height,
        edge,
    )
}

/// What is written for a level of a pair of mip chains: the patterns of its
/// table. Nothing for a level that is left out.
pub open spec fn paired_level_text(
    linear: Seq<u128>,
    mip: Seq<u128>,
    mip_width: nat,
    mip_height: nat,
    edge: nat,
) -> Seq<char> {
    if level_skipped(mip_width, mip_height, edge) {
        Seq::empty()
    } else {
        patterns_text(deswizzle_lut(linear, mip), mip_width, mip_height, edge)
    }
}

/// The swizzled input is one probe for every level of the deswizzled chain.
pub open spec fn one_probe(swizzled_levels: nat, deswizzled_levels: nat) -> bool {
    swizzled_levels == 1 && deswizzled_levels > 1
}

/// The number of levels for which something is written.
pub open spec fn written_levels(swizzled_levels: nat, deswizzled_levels: nat) -> nat {
    if one_probe(swizzled_levels, deswizzled_levels) || deswizzled_levels <= swizzled_levels {
        deswizzled_levels
    } else {
        swizzled_levels
    }
}

/// Something can be written for level `level`.
pub open spec fn level_defined(
    swizzled_mipmaps: Seq<Vec<u128>>,
    deswizzled_mipmaps: Seq<Vec<u128>>,
    width: nat,
    height: nat,
    edge: nat,
    level: int,
) -> bool {
    if one_probe(swizzled_mipmaps.len(), deswizzled_mipmaps.len()) {
        probe_level_defined(
            deswizzled_mipmaps[level]@.len(),
            mip_extent(width, level as nat),
            mip_extent(height, level as nat),
            edge,
        )
    } else {
        paired_level_defined(
            deswizzled_mipmaps[level]@.len(),
            mip_extent(width, level as nat),
            mip_extent(height, level as nat),
            edge,
        )
    }
}

/// What is written for level `level`.
pub open spec fn level_text(
    swizzled_mipmaps: Seq<Vec<u128>>,
    deswizzled_mipmaps: Seq<Vec<u128>>,
    width: nat,
    height: nat,
    edge: nat,
    level: int,
) -> Seq<char> {
    if one_probe(swizzled_mipmaps.len(), deswizzled_mipmaps.len()) {
        probe_level_text(
            swizzled_mipmaps[0]@,
            deswizzled_mipmaps[level]@,
            mip_extent(width, level as nat),
            mip_extent(height, level as nat),
            edge,
        )
    } else {
        paired_level_text(
            swizzled_mipmaps[level]@,
            deswizzled_mipmaps[level]@,
            mip_extent(width, level as nat),
            mip_extent(height, level as nat),
            edge,
        )
    }
}

/// What guessing the patterns of a pair of images gives: a text for every
/// level where something can be written for every level, and `InvalidBuffer`
/// where a level has too few blocks for its size.
pub open spec fn guess_outcome(
    swizzled_mipmaps: Seq<Vec<u128>>,
    deswizzled_mipmaps: Seq<Vec<u128>>,
    width: nat,
    height: nat,
    format: ImageFormat,
    result: Result<Vec<String>, SwizzleError>,
) -> bool {
    let levels = written_levels(swizzled_mipmaps.len(), deswizzled_mipmaps.len());
    let edge = tile_edge(format);
    if forall|level: int|
        0 <= level < levels ==> #[trigger] level_defined(
            swizzled_mipmaps,
            deswizzled_mipmaps,
            width,
            height,
            edge,
            level,
        ) {
        &&& result is Ok
        &&& result->Ok_0@.len() == levels
        &&& forall|level: int|
            0 <= level < levels ==> (#[trigger] result->Ok_0@[level])@ == level_text(
                swizzled_mipmaps,
                deswizzled_mipmaps,
                width,
                height,
                edge,
                level,
            )
    } else {
        result == Err::<Vec<String>, SwizzleError>(SwizzleError::InvalidBuffer)
    }
}

/// Writes what is written for one level whose blocks are looked up in the
/// probe.
fn write_probe_level(
    probe: &[u128],
    mip: &[u128],
    mip_width: usize,
    mip_height: usize,
    edge: usize,
) -> (text: Option<String>)
    requires
        edge > 0,
    ensures
        text is Some <==> probe_level_defined(
            mip@.len(),
            mip_width as nat,
            mip_height as nat,
            edge as nat,
        ),
        text is Some ==> text->Some_0@ == probe_level_text(
            probe@,
            mip@,
            mip_width as nat,
            mip_height as nat,
            edge as nat,
        ),
{
    if mip_width < edge || mip_height < edge {
        return Some(String::new());
    }
    if mip.len() == 0 || !has_patterns(mip.len(), mip_width, mip_height, edge) {
        return None;
    }
    // The blocks of the probe cover all mip levels, so the range of the
    // entries gives the place and the size of this level in the probe.
    let mut mip_lut = create_mip_deswizzle_lut(probe, mip);
    let ghost lut = mip_lut@;
    let (start_index, end_index) = get_mipmap_range(mip_lut.as_slice());
    // The patterns are counted from the start of the level.
    let mut i: usize = 0;
    while i < mip_lut.len()
        invariant
            i <= mip_lut@.len() == lut.len(),
            forall|k: int| 0 <= k < i ==> #[trigger] mip_lut@[k] == lut[k].wrapping_sub(start_index),
            forall|k: int| i <= k < lut.len() ==> #[trigger] mip_lut@[k] == lut[k],
        decreases mip_lut@.len() - i,
    {
        let entry: i64 = mip_lut[i];
        mip_lut[i] = entry.wrapping_sub(start_index);
        i += 1;
    }
    assert(mip_lut@ =~= rebased(lut, start_index));
    let swizzle_output = get_swizzle_patterns_output(
        mip_lut.as_slice(),
        mip_width,
        mip_height,
        edge,
    );
    let mut text = String::from_str("Start Index: ");
    append_signed_decimal(&mut text, start_index);
    text.append("\nEnd Index: ");
    append_signed_decimal(&mut text, end_index);
    text.append("\n");
    text.append(swizzle_output.as_str());
    text.append("\n");
    Some(text)
}

/// Writes the patterns of every level of a pair of images of `width` by
/// `height` pixels: `swizzled_mipmaps` holds the blocks of the probe as they
/// were handed to the hardware, `deswizzled_mipmaps` the blocks that came back
/// in linear order. Where the probe is one level and the deswizzled image a
/// chain of several, every level is looked up in that one probe.
pub fn guess_swizzle_patterns(
    swizzled_mipmaps: &[Vec<u128>],
    deswizzled_mipmaps: &[Vec<u128>],
    width: usize,
    height: usize,
    format: &ImageFormat,
) -> (result: Result<Vec<String>, SwizzleError>)
    ensures
        guess_outcome(
            swizzled_mipmaps@,
            deswizzled_mipmaps@,
            width as nat,
            height as nat,
            *format,
            result,
        ),
{
    let edge: usize = get_tile_edge(format);
    let probe_only: bool = swizzled_mipmaps.len() == 1 && deswizzled_mipmaps.len() > 1;
    let levels: usize = if probe_only || deswizzled_mipmaps.len() <= swizzled_mipmaps.len() {
        deswizzled_mipmaps.len()
    } else {
        swizzled_mipmaps.len()
    };
    // With a probe for every level, both chains are compared level by level.
    let mip_luts: Vec<Vec<i64>> = if probe_only {
        Vec::new()
    } else {
        create_deswizzle_luts(swizzled_mipmaps, deswizzled_mipmaps)
    };
    let mut mip_outputs: Vec<String> = Vec::new();
    let mut mip_width: usize = width;
    let mut mip_height: usize = height;
    let mut level: usize = 0;
    while level < levels
        invariant
            edge == tile_edge(*format),
            edge > 0,
            probe_only == one_probe(swizzled_mipmaps@.len(), deswizzled_mipmaps@.len()),
            levels == written_levels(swizzled_mipmaps@.len(), deswizzled_mipmaps@.len()),
            level <= levels,
            mip_width == mip_extent(width as nat, level as nat),
            mip_height == mip_extent(height as nat, level as nat),
            mip_outputs@.len() == level,
            !probe_only ==> mip_luts@.len() == levels,
            forall|k: int|
                !probe_only && 0 <= k < levels ==> (#[trigger] mip_luts@[k])@ == deswizzle_lut(
                    swizzled_mipmaps@[k]@,
                    deswizzled_mipmaps@[k]@,
                ),
            forall|k: int|
                0 <= k < level ==> #[trigger] level_defined(
                    swizzled_mipmaps@,
                    deswizzled_mipmaps@,
                    width as nat,
                    height as nat,
                    edge as nat,
                    k,
                ),
            forall|k: int|
                0 <= k < level ==> (#[trigger] mip_outputs@[k])@ == level_text(
                    swizzled_mipmaps@,
                    deswizzled_mipmaps@,
                    width as nat,
                    height as nat,
                    edge as nat,
                    k,
                ),
        decreases levels - level,
    {
        let mip: &[u128] = deswizzled_mipmaps[level].as_slice();
        let output: Option<String> = if probe_only {
            write_probe_level(swizzled_mipmaps[0].as_slice(), mip, mip_width, mip_height, edge)
        } else if mip_width < edge || mip_height < edge {
            Some(String::new())
        } else if has_patterns(mip.len(), mip_width, mip_height, edge) {
            Some(
                get_swizzle_patterns_output(
                    mip_luts[level].as_slice(),
                    mip_width,
                    mip_height,
                    edge,
                ),
            )
        } else {
            None
        };
        match output {
            Some(text) => {
                mip_outputs.push(text);
            },
            None => {
                assert(!level_defined(
                    swizzled_mipmaps@,
                    deswizzled_mipmaps@,
                    width as nat,
                    height as nat,
                    edge as nat,
                    level as int,
                ));
                return Err(SwizzleError::InvalidBuffer);
            },
        }
        mip_width = mip_width / 2;
        mip_height = mip_height / 2;
        level += 1;
    }
    Ok(mip_outputs)
}

/// A table as CSV: one row for every entry, with its place and the entry, both
/// in decimal digits.
pub open spec fn csv_text(lut: Seq<i64>) -> Seq<char>
    decreases lut.len(),
{
    if lut.len() == 0 {
        Seq::empty()
    } else {
        csv_text(lut.drop_last()) + decimal_digits((lut.len() - 1) as nat) + ","@
            + signed_decimal_digits(lut.last() as int) + "\n"@
    }
}

/// Writes a table as CSV: one row for every block, with its linear place and
/// the place it was found at in the probe.
pub fn write_lut_csv(lut: &[i64]) -> (text: String)
    ensures
        text@ == csv_text(lut@),
{
    let mut text = String::new();
    let mut i: usize = 0;
    assert(lut@.take(0) =~= Seq::<i64>::empty());
    while i < lut.len()
        invariant
            i <= lut@.len(),
            text@ == csv_text(lut@.take(i as int)),
        decreases lut@.len() - i,
    {
        proof {
            assert(lut@.take(i + 1).drop_last() =~= lut@.take(i as int));
            assert(lut@.take(i + 1).last() == lut@[i as int]);
        }
        append_decimal(&mut text, i as u64);
        text.append(",");
        append_signed_decimal(&mut text, lut[i]);
        text.append("\n");
        i += 1;
    }
    assert(lut@.take(lut@.len() as int) =~= lut@);
    text
}

} // verus!
