//! The block reader: a byte buffer as a sequence of blocks of 4, 8 or 16
//! bytes, each read in little-endian order. Whatever its width, a block is
//! held as a 128-bit number; blocks are only compared, never computed with.

use vstd::prelude::*;
use binread::BinReaderExt;
use crate::format::{get_tile_size, tile_size, ImageFormat};

verus! {

/// The number that `bytes` hold in little-endian order.
pub open spec fn le_value(bytes: Seq<u8>) -> nat
    decreases bytes.len(),
{
    if bytes.len() == 0 {
        0
    } else {
        bytes[0] as nat + 256 * le_value(bytes.drop_first())
    }
}

/// The number of values that `width` bytes can hold: 256 to the power `width`.
pub open spec fn radix(width: nat) -> nat
    decreases width,
{
    if width == 0 {
        1
    } else {
        256 * radix((width - 1) as nat)
    }
}

/// Block number `i` of `bytes` cut into blocks of `size` bytes.
pub open spec fn block_at(bytes: Seq<u8>, size: nat, i: int) -> u128 {
    le_value(bytes.subrange(i * size, i * size + size)) as u128
}

/// The blocks of `size` bytes that `bytes` hold, in order. Bytes at the end
/// that do not fill a block are left out.
pub open spec fn blocks_of(bytes: Seq<u8>, size: nat) -> Seq<u128> {
    Seq::new(bytes.len() / size, |i: int| block_at(bytes, size, i))
}

/// Reads a block of 4 bytes at `at` with binread's `read_le::<u32>` on a
/// cursor over the rest of `bytes`: the little-endian value of the next 4
/// bytes, or nothing where fewer are left.
#[verifier::external_body]
fn read_block_4(bytes: &[u8], at: usize) -> (block: Option<u128>)
    requires
        at <= bytes@.len(),
    ensures
        block == (if at + 4 <= bytes@.len() {
            Some(le_value(bytes@.subrange(at as int, at + 4)) as u128)
        } else {
            None
        }),
{
    let mut reader = std::io::Cursor::new(&bytes[at..]);
    reader.read_le::<u32>().ok().map(u128::from)
}

/// Reads a block of 8 bytes at `at` with binread's `read_le::<u64>` on a
/// cursor over the rest of `bytes`: the little-endian value of the next 8
/// bytes, or nothing where fewer are left.
#[verifier::external_body]
fn read_block_8(bytes: &[u8], at: usize) -> (block: Option<u128>)
    requires
        at <= bytes@.len(),
    ensures
        block == (if at + 8 <= bytes@.len() {
            Some(le_value(bytes@.subrange(at as int, at + 8)) as u128)
        } else {
            None
        }),
{
    let mut reader = std::io::Cursor::new(&bytes[at..]);
    reader.read_le::<u64>().ok().map(u128::from)
}

/// Reads a block of 16 bytes at `at` with binread's `read_le::<u128>` on a
/// cursor over the rest of `bytes`: the little-endian value of the next 16
/// bytes, or nothing where fewer are left.
#[verifier::external_body]
fn read_block_16(bytes: &[u8], at: usize) -> (block: Option<u128>)
    requires
        at <= bytes@.len(),
    ensures
        block == (if at + 16 <= bytes@.len() {
            Some(le_value(bytes@.subrange(at as int, at + 16)) as u128)
        } else {
            None
        }),
{
    let mut reader = std::io::Cursor::new(&bytes[at..]);
    reader.read_le::<u128>().ok()
}

/// Reads `bytes` as the blocks of an image of `format`: blocks of the format's
/// tile size, each in little-endian order, up to the last whole block.
pub fn read_vec(bytes: &[u8], format: &ImageFormat) -> (blocks: Vec<u128>)
    ensures
        blocks@ == blocks_of(bytes@, tile_size(*format)),
{
    let size: usize = get_tile_size(format);
    let length: usize = bytes.len();
    let mut result: Vec<u128> = Vec::new();
    let mut at: usize = 0;
    loop
        invariant
            size == tile_size(*format),
            length == bytes@.len(),
            at <= length,
            at == result@.len() * size,
            forall|i: int| 0 <= i < result@.len() ==> #[trigger] result@[i] == block_at(bytes@, size as nat, i),
        ensures
            at == result@.len() * size,
            length - at < size,
            forall|i: int| 0 <= i < result@.len() ==> #[trigger] result@[i] == block_at(bytes@, size as nat, i),
        decreases length - at,
    {
        let block = match format {
            ImageFormat::Rgba8 => read_block_4(bytes, at),
            ImageFormat::Bc1 => read_block_8(bytes, at),
            _ => read_block_16(bytes, at),
        };
        match block {
            Some(block) => {
                result.push(block);
                at += size;
                proof {
                    assert((result@.len() - 1) * size + size == result@.len() * size)
                        by (nonlinear_arith);
                }
            },
            None => {
                break ;
            },
        }
    }
    proof {
        vstd::arithmetic::div_mod::lemma_fundamental_div_mod_converse(
            length as int,
            size as int,
            result@.len() as int,
            length - at,
        );
        assert(result@ =~= blocks_of(bytes@, size as nat));
    }
    result
}

/// The number that bytes hold is less than the number of values that so many
/// bytes can hold.
pub proof fn lemma_le_value_bound(bytes: Seq<u8>)
    ensures
        le_value(bytes) < radix(bytes.len()),
    decreases bytes.len(),
{
    if bytes.len() > 0 {
        lemma_le_value_bound(bytes.drop_first());
    }
}

/// Two byte sequences of one length that hold the same number are the same.
pub proof fn lemma_le_value_injective(a: Seq<u8>, b: Seq<u8>)
    requires
        a.len() == b.len(),
        le_value(a) == le_value(b),
    ensures
        a == b,
    decreases a.len(),
{
    if a.len() > 0 {
        lemma_le_value_injective(a.drop_first(), b.drop_first());
        assert(a =~= seq![a[0]] + a.drop_first());
        assert(b =~= seq![b[0]] + b.drop_first());
    } else {
        assert(a =~= b);
    }
}

/// Blocks of up to 16 bytes that differ as bytes differ as blocks.
pub proof fn lemma_blocks_differ(a: Seq<u8>, b: Seq<u8>)
    requires
        a.len() == b.len() <= 16,
        a != b,
    ensures
        le_value(a) as u128 != le_value(b) as u128,
{
    lemma_le_value_bound(a);
    lemma_le_value_bound(b);
    lemma_radix_grows(a.len(), 16);
    assert(radix(16) == 0x1_0000_0000_0000_0000_0000_0000_0000_0000) by {
        reveal_with_fuel(radix, 17);
    }
    if le_value(a) == le_value(b) {
        lemma_le_value_injective(a, b);
    }
}

/// More bytes hold more values.
pub proof fn lemma_radix_grows(narrow: nat, wide: nat)
    requires
        narrow <= wide,
    ensures
        1 <= radix(narrow) <= radix(wide),
    decreases wide,
{
    if narrow < wide {
        lemma_radix_grows(narrow, (wide - 1) as nat);
    } else if wide > 0 {
        lemma_radix_grows((narrow - 1) as nat, (wide - 1) as nat);
    }
}

} // verus!
