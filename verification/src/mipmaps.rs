//! The mip splitter: cuts the payload of a DDS file into the byte ranges of
//! its mip levels and reads each as blocks.

use vstd::prelude::*;
use crate::blocks::{blocks_of, read_vec};
use crate::error::SwizzleError;
use crate::format::{tile_size, ImageFormat};

verus! {

/// What the splitter reads of a DDS file: the three quantities of its header
/// that lay out the mip chain, and its payload.
pub struct DdsLayout {
    /// The size in bytes of the main texture, where the header gives one.
    pub main_texture_size: Option<u32>,
    /// The least size in bytes that a mip level takes in the payload.
    pub min_mipmap_size: u32,
    /// The number of mip levels, the main texture included.
    pub num_mipmap_levels: u32,
    /// The payload that follows the headers.
    pub data: Vec<u8>,
}

/// The size in bytes of mip level `level`: a quarter of the level before.
pub open spec fn level_size(main_size: nat, level: nat) -> nat
    decreases level,
{
    if level == 0 {
        main_size
    } else {
        level_size(main_size, (level - 1) as nat) / 4
    }
}

/// The offset in the payload of mip level `level`: every level before it takes
/// its size, or the least size where that is more.
pub open spec fn level_offset(main_size: nat, min_size: nat, level: nat) -> nat
    decreases level,
{
    if level == 0 {
        0
    } else {
        let before = (level - 1) as nat;
        level_offset(main_size, min_size, before) + (if level_size(main_size, before)
            >= min_size {
            level_size(main_size, before)
        } else {
            min_size
        })
    }
}

/// The bytes of mip level `level` in the payload `data`.
pub open spec fn level_bytes(data: Seq<u8>, main_size: nat, min_size: nat, level: nat) -> Seq<u8> {
    data.subrange(
        level_offset(main_size, min_size, level) as int,
        (level_offset(main_size, min_size, level) + level_size(main_size, level)) as int,
    )
}

/// The first `levels` mip levels lie inside a payload of `data_len` bytes.
pub open spec fn levels_fit(data_len: nat, main_size: nat, min_size: nat, levels: nat) -> bool {
    forall|level: nat|
        level < levels ==> #[trigger] level_offset(main_size, min_size, level) + level_size(
            main_size,
            level,
        ) <= data_len
}

/// What splitting a DDS payload gives: `InvalidContainer` where the header
/// gives no size for the main texture, `TruncatedContainer` where a level
/// reaches past the end of the payload, and else the blocks of every level.
pub open spec fn split_outcome(
    dds: DdsLayout,
    format: ImageFormat,
    result: Result<Vec<Vec<u128>>, SwizzleError>,
) -> bool {
    match dds.main_texture_size {
        None => result == Err::<Vec<Vec<u128>>, SwizzleError>(SwizzleError::InvalidContainer),
        Some(main_size) => if levels_fit(
            dds.data@.len(),
            main_size as nat,
            dds.min_mipmap_size as nat,
            dds.num_mipmap_levels as nat,
        ) {
            &&& result is Ok
            &&& result->Ok_0@.len() == dds.num_mipmap_levels
            &&& forall|level: int|
                0 <= level < dds.num_mipmap_levels ==> (#[trigger] result->Ok_0@[level])@
                    == blocks_of(
                    level_bytes(
                        dds.data@,
                        main_size as nat,
                        dds.min_mipmap_size as nat,
                        level as nat,
                    ),
                    tile_size(format),
                )
        } else {
            result == Err::<Vec<Vec<u128>>, SwizzleError>(SwizzleError::TruncatedContainer)
        },
    }
}

/// Reads the mip levels of a DDS payload as blocks of the tile size of
/// `format`.
pub fn read_mipmaps_dds(dds: &DdsLayout, format: &ImageFormat) -> (result: Result<
    Vec<Vec<u128>>,
    SwizzleError,
>)
    ensures
        split_outcome(*dds, *format, result),
{
    let main_size: u32 = match dds.main_texture_size {
        Some(size) => size,
        None => {
            return Err(SwizzleError::InvalidContainer);
        },
    };
    let data: &[u8] = dds.data.as_slice();
    let length: usize = data.len();
    let min_mipmap_size: u32 = dds.min_mipmap_size;
    let levels: u32 = dds.num_mipmap_levels;
    let mut mip_offset: u128 = 0;
    let mut mip_size: u32 = main_size;
    let mut mip_data: Vec<Vec<u128>> = Vec::new();
    let mut level: u32 = 0;
    while level < levels
        invariant
            level <= levels,
            length == data@.len(),
            data@ == dds.data@,
            dds.main_texture_size == Some(main_size),
            dds.min_mipmap_size == min_mipmap_size,
            dds.num_mipmap_levels == levels,
            mip_size == level_size(main_size as nat, level as nat),
            mip_offset == level_offset(main_size as nat, min_mipmap_size as nat, level as nat),
            mip_offset <= level * 0x1_0000_0000,
            levels_fit(data@.len(), main_size as nat, min_mipmap_size as nat, level as nat),
            mip_data@.len() == level,
            forall|k: int|
                0 <= k < level ==> (#[trigger] mip_data@[k])@ == blocks_of(
                    level_bytes(data@, main_size as nat, min_mipmap_size as nat, k as nat),
                    tile_size(*format),
                ),
        decreases levels - level,
    {
        if mip_offset + mip_size as u128 > length as u128 {
            proof {
                let here = level as nat;
                assert(here < levels as nat);
                assert(level_offset(main_size as nat, min_mipmap_size as nat, here) + level_size(
                    main_size as nat,
                    here,
                ) > data@.len());
            }
            return Err(SwizzleError::TruncatedContainer);
        }
        let start: usize = mip_offset as usize;
        let blocks = read_vec(&data[start..start + mip_size as usize], format);
        mip_data.push(blocks);
        mip_offset += if mip_size >= min_mipmap_size {
            mip_size as u128
        } else {
            min_mipmap_size as u128
        };
        mip_size /= 4;
        level += 1;
    }
    Ok(mip_data)
}

} // verus!
