//! The synthetic payload generators: blocks that carry a rising counter, so
//! that no two blocks of a payload are alike. Such a payload is the probe from
//! which the swizzle pattern of the hardware is inferred.

use vstd::prelude::*;
use vstd::arithmetic::div_mod::lemma_fundamental_div_mod;
use vstd::arithmetic::div_mod::lemma_fundamental_div_mod_converse;
use crate::blocks::{block_at, blocks_of, lemma_blocks_differ, radix};
use crate::format::{get_tile_size, tile_size, ImageFormat};
use crate::lut::pairwise_distinct;

verus! {

/// The low `width` bytes of `value` in little-endian order.
pub open spec fn le_bytes(value: nat, width: nat) -> Seq<u8>
    decreases width,
{
    if width == 0 {
        Seq::empty()
    } else {
        seq![(value % 256) as u8] + le_bytes(value / 256, (width - 1) as nat)
    }
}

/// Block `counter` of the payload of `format`. The counter fills the block of
/// `Rgba8`, follows four zero bytes in a block of `Bc1`, follows the number
/// 65535 in eight bytes in a block of `Bc3`, and stands between four zero
/// bytes and the number 2 in four bytes in a block of `Bc7`. The payload
/// of `RgbaF32` holds floating-point numbers and is not made here; its block
/// is empty.
pub open spec fn unique_block(format: ImageFormat, counter: nat) -> Seq<u8> {
    match format {
        ImageFormat::Rgba8 => le_bytes(counter, 4),
        ImageFormat::Bc1 => le_bytes(0, 4) + le_bytes(counter, 4),
        ImageFormat::Bc3 => le_bytes(65535, 8) + le_bytes(counter, 8),
        ImageFormat::Bc7 => le_bytes(0, 4) + le_bytes(counter, 8) + le_bytes(2, 4),
        ImageFormat::RgbaF32 => Seq::empty(),
    }
}

/// The payload of `count` blocks of `format`: the blocks of the counters from
/// zero up to `count`.
pub open spec fn unique_payload(format: ImageFormat, count: nat) -> Seq<u8>
    decreases count,
{
    if count == 0 {
        Seq::empty()
    } else {
        unique_payload(format, (count - 1) as nat) + unique_block(format, (count - 1) as nat)
    }
}

/// The number of blocks that `write_addresses` writes for an image: as many
/// as fit in `image_size` bytes where a size is given, and else one for every
/// pixel of an uncompressed format or for every 16 pixels of a compressed one.
pub open spec fn payload_blocks(
    format: ImageFormat,
    width: nat,
    height: nat,
    image_size: Option<usize>,
) -> nat {
    match image_size {
        Some(size) => size as nat / tile_size(format),
        None => match format {
            ImageFormat::Rgba8 | ImageFormat::RgbaF32 => width * height,
            _ => width * height / 16,
        },
    }
}

/// Appends the low `width` bytes of `value` in little-endian order.
fn append_le(writer: &mut Vec<u8>, value: u64, width: usize)
    ensures
        final(writer)@ == old(writer)@ + le_bytes(value as nat, width as nat),
    decreases width,
{
    if width > 0 {
        writer.push((value % 256) as u8);
        append_le(writer, value / 256, width - 1);
        assert(writer@ =~= old(writer)@ + le_bytes(value as nat, width as nat));
    } else {
        assert(writer@ =~= old(writer)@ + le_bytes(value as nat, width as nat));
    }
}

/// Appends the payload of `pixel_count` pixels of `Rgba8`, the count taken as
/// a 32-bit number: every pixel is its own number.
pub fn write_rgba_lut(writer: &mut Vec<u8>, pixel_count: usize)
    ensures
        final(writer)@ == old(writer)@ + unique_payload(
            ImageFormat::Rgba8,
            (pixel_count as u32) as nat,
        ),
{
    let count: u32 = #[verifier::truncate]
    (pixel_count as u32);
    let mut i: u32 = 0;
    assert(writer@ =~= old(writer)@ + unique_payload(ImageFormat::Rgba8, 0));
    while i < count
        invariant
            i <= count,
            writer@ == old(writer)@ + unique_payload(ImageFormat::Rgba8, i as nat),
        decreases count - i,
    {
        // The linear address makes every pixel unique.
        append_le(writer, i as u64, 4);
        i += 1;
        assert(writer@ =~= old(writer)@ + unique_payload(ImageFormat::Rgba8, i as nat));
    }
}

/// Appends the payload of `block_count` blocks of `Bc7`: 128 bits each, unique
/// as blocks, not as pixel colours.
pub fn write_bc7_lut(writer: &mut Vec<u8>, block_count: usize)
    ensures
        final(writer)@ == old(writer)@ + unique_payload(ImageFormat::Bc7, block_count as nat),
{
    let count: u64 = block_count as u64;
    let mut i: u64 = 0;
    assert(writer@ =~= old(writer)@ + unique_payload(ImageFormat::Bc7, 0));
    while i < count
        invariant
            i <= count,
            writer@ == old(writer)@ + unique_payload(ImageFormat::Bc7, i as nat),
        decreases count - i,
    {
        append_le(writer, 0, 4);
        append_le(writer, i, 8);
        append_le(writer, 2, 4);
        i += 1;
        assert(writer@ =~= old(writer)@ + unique_payload(ImageFormat::Bc7, i as nat));
    }
}

/// Appends the payload of `block_count` blocks of `Bc3`: 128 bits each, unique
/// as blocks, not as pixel colours.
pub fn write_bc3_lut(writer: &mut Vec<u8>, block_count: usize)
    ensures
        final(writer)@ == old(writer)@ + unique_payload(ImageFormat::Bc3, block_count as nat),
{
    let count: u64 = block_count as u64;
    let mut i: u64 = 0;
    assert(writer@ =~= old(writer)@ + unique_payload(ImageFormat::Bc3, 0));
    while i < count
        invariant
            i <= count,
            writer@ == old(writer)@ + unique_payload(ImageFormat::Bc3, i as nat),
        decreases count - i,
    {
        append_le(writer, 65535, 8);
        append_le(writer, i, 8);
        i += 1;
        assert(writer@ =~= old(writer)@ + unique_payload(ImageFormat::Bc3, i as nat));
    }
}

/// Appends the payload of `block_count` blocks of `Bc1`, the count taken as a
/// 32-bit number: 64 bits each, unique as blocks, not as pixel colours.
pub fn write_bc1_lut(writer: &mut Vec<u8>, block_count: usize)
    ensures
        final(writer)@ == old(writer)@ + unique_payload(
            ImageFormat::Bc1,
            (block_count as u32) as nat,
        ),
{
    let count: u32 = #[verifier::truncate]
    (block_count as u32);
    let mut i: u32 = 0;
    assert(writer@ =~= old(writer)@ + unique_payload(ImageFormat::Bc1, 0));
    while i < count
        invariant
            i <= count,
            writer@ == old(writer)@ + unique_payload(ImageFormat::Bc1, i as nat),
        decreases count - i,
    {
        append_le(writer, 0, 4);
        append_le(writer, i as u64, 4);
        i += 1;
        assert(writer@ =~= old(writer)@ + unique_payload(ImageFormat::Bc1, i as nat));
    }
}

/// The number of blocks that are written for an image of `width` by `height`
/// pixels, or for `image_size` bytes where a size is given.
pub fn get_block_count(
    format: &ImageFormat,
    width: usize,
    height: usize,
    image_size: Option<usize>,
) -> (count: usize)
    requires
        image_size is None ==> width * height <= usize::MAX,
    ensures
        count == payload_blocks(*format, width as nat, height as nat, image_size),
{
    match image_size {
        Some(size) => size / get_tile_size(format),
        None => match format {
            ImageFormat::Rgba8 | ImageFormat::RgbaF32 => width * height,
            _ => width * height / 16,
        },
    }
}

/// The number of counters that fit the counter field of a block of `format`.
pub open spec fn counter_limit(format: ImageFormat) -> nat {
    match format {
        ImageFormat::Rgba8 | ImageFormat::Bc1 => 0x1_0000_0000,
        ImageFormat::Bc3 | ImageFormat::Bc7 => 0x1_0000_0000_0000_0000,
        ImageFormat::RgbaF32 => 0,
    }
}

/// A value takes as many bytes as asked for.
pub proof fn lemma_le_bytes_len(value: nat, width: nat)
    ensures
        le_bytes(value, width).len() == width,
    decreases width,
{
    if width > 0 {
        lemma_le_bytes_len(value / 256, (width - 1) as nat);
    }
}

/// Two values that fit `width` bytes and have the same bytes are the same.
pub proof fn lemma_le_bytes_injective(a: nat, b: nat, width: nat)
    requires
        a < radix(width),
        b < radix(width),
        le_bytes(a, width) == le_bytes(b, width),
    ensures
        a == b,
    decreases width,
{
    if width > 0 {
        let rest = (width - 1) as nat;
        lemma_le_bytes_len(a / 256, rest);
        lemma_le_bytes_len(b / 256, rest);
        assert(le_bytes(a, width)[0] == (a % 256) as u8);
        assert(le_bytes(b, width)[0] == (b % 256) as u8);
        assert(le_bytes(a, width).subrange(1, width as int) =~= le_bytes(a / 256, rest));
        assert(le_bytes(b, width).subrange(1, width as int) =~= le_bytes(b / 256, rest));
        lemma_le_bytes_injective(a / 256, b / 256, rest);
    }
}

/// A block has the tile size of its format.
pub proof fn lemma_unique_block_len(format: ImageFormat, counter: nat)
    requires
        format != ImageFormat::RgbaF32,
    ensures
        unique_block(format, counter).len() == tile_size(format),
{
    lemma_le_bytes_len(counter, 4);
    lemma_le_bytes_len(counter, 8);
    lemma_le_bytes_len(0, 4);
    lemma_le_bytes_len(2, 4);
    lemma_le_bytes_len(65535, 8);
}

/// Blocks of two counters that fit the counter field differ.
pub proof fn lemma_unique_blocks_differ(format: ImageFormat, i: nat, j: nat)
    requires
        format != ImageFormat::RgbaF32,
        i < counter_limit(format),
        j < counter_limit(format),
        i != j,
    ensures
        unique_block(format, i) != unique_block(format, j),
{
    assert(radix(4) == 0x1_0000_0000 && radix(8) == 0x1_0000_0000_0000_0000) by {
        reveal_with_fuel(radix, 9);
    }
    lemma_le_bytes_len(i, 4);
    lemma_le_bytes_len(j, 4);
    lemma_le_bytes_len(i, 8);
    lemma_le_bytes_len(j, 8);
    lemma_le_bytes_len(0, 4);
    lemma_le_bytes_len(2, 4);
    lemma_le_bytes_len(65535, 8);
    if unique_block(format, i) == unique_block(format, j) {
        match format {
            ImageFormat::Rgba8 => {
                lemma_le_bytes_injective(i, j, 4);
            },
            ImageFormat::Bc1 => {
                assert(unique_block(format, i).subrange(4, 8) =~= le_bytes(i, 4));
                assert(unique_block(format, j).subrange(4, 8) =~= le_bytes(j, 4));
                lemma_le_bytes_injective(i, j, 4);
            },
            ImageFormat::Bc3 => {
                assert(unique_block(format, i).subrange(8, 16) =~= le_bytes(i, 8));
                assert(unique_block(format, j).subrange(8, 16) =~= le_bytes(j, 8));
                lemma_le_bytes_injective(i, j, 8);
            },
            _ => {
                assert(unique_block(format, i).subrange(4, 12) =~= le_bytes(i, 8));
                assert(unique_block(format, j).subrange(4, 12) =~= le_bytes(j, 8));
                lemma_le_bytes_injective(i, j, 8);
            },
        }
    }
}

/// A payload of `count` blocks has `count` tiles of bytes, and tile `i` holds
/// the block of counter `i`.
pub proof fn lemma_payload_block(format: ImageFormat, count: nat, i: nat)
    requires
        format != ImageFormat::RgbaF32,
        i < count,
    ensures
        unique_payload(format, count).len() == count * tile_size(format),
        i * tile_size(format) + tile_size(format) <= count * tile_size(format),
        unique_payload(format, count).subrange(
            (i * tile_size(format)) as int,
            (i * tile_size(format) + tile_size(format)) as int,
        ) == unique_block(format, i),
    decreases count,
{
    let size = tile_size(format);
    let fewer = (count - 1) as nat;
    lemma_payload_len(format, count);
    lemma_payload_len(format, fewer);
    lemma_unique_block_len(format, fewer);
    assert(count * size == fewer * size + size) by (nonlinear_arith)
        requires
            count == fewer + 1,
    ;
    assert(i * size + size <= count * size) by (nonlinear_arith)
        requires
            i < count,
            size >= 0,
    ;
    if i < fewer {
        lemma_payload_block(format, fewer, i);
        assert(unique_payload(format, count).subrange(
            (i * size) as int,
            (i * size + size) as int,
        ) =~= unique_payload(format, fewer).subrange((i * size) as int, (i * size + size) as int));
    } else {
        assert(unique_payload(format, count).subrange(
            (i * size) as int,
            (i * size + size) as int,
        ) =~= unique_block(format, i));
    }
}

/// A payload of `count` blocks has `count` tiles of bytes.
pub proof fn lemma_payload_len(format: ImageFormat, count: nat)
    requires
        format != ImageFormat::RgbaF32,
    ensures
        unique_payload(format, count).len() == count * tile_size(format),
    decreases count,
{
    if count > 0 {
        let fewer = (count - 1) as nat;
        lemma_payload_len(format, fewer);
        lemma_unique_block_len(format, fewer);
        assert(count * tile_size(format) == fewer * tile_size(format) + tile_size(format))
            by (nonlinear_arith)
            requires
                count == fewer + 1,
        ;
    } else {
        assert(count * tile_size(format) == 0) by (nonlinear_arith)
            requires
                count == 0,
        ;
    }
}

/// The blocks of a payload are the blocks that were written, and no two of
/// them are alike, as long as the counters fit the counter field.
pub proof fn lemma_payload_blocks_distinct(format: ImageFormat, count: nat)
    requires
        format != ImageFormat::RgbaF32,
        count <= counter_limit(format),
    ensures
        blocks_of(unique_payload(format, count), tile_size(format)).len() == count,
        pairwise_distinct(blocks_of(unique_payload(format, count), tile_size(format))),
{
    let size = tile_size(format);
    let payload = unique_payload(format, count);
    let blocks = blocks_of(payload, size);
    lemma_payload_len(format, count);
    lemma_fundamental_div_mod_converse(payload.len() as int, size as int, count as int, 0);
    assert forall|i: int, j: int| 0 <= i < j < blocks.len() implies #[trigger] blocks[i]
        != #[trigger] blocks[j] by {
        lemma_payload_block(format, count, i as nat);
        lemma_payload_block(format, count, j as nat);
        lemma_unique_blocks_differ(format, i as nat, j as nat);
        lemma_unique_block_len(format, i as nat);
        lemma_unique_block_len(format, j as nat);
        lemma_blocks_differ(unique_block(format, i as nat), unique_block(format, j as nat));
        assert(blocks[i] == block_at(payload, size, i));
        assert(blocks[j] == block_at(payload, size, j));
    }
}

} // verus!
