//! Conversion of texture data between the tiled (swizzled) memory layout of the
//! console GPU and the row-major (linear) layout, and recovery of the address
//! pattern from a pair of matching swizzled and linear images.
//!
//! The runtime path takes raw bytes, the size of the image and its format
//! (`swizzle_data`, `deswizzle_data`): the mask generator (`masks`) gives the
//! two address masks of the grid, and the mask walker (`walk`) copies every
//! tile. The inference path takes the blocks of a probe and of its deswizzled
//! image (`guess_swizzle_patterns`): the inverse-index builder (`lut`) finds
//! for every block where it came from, and the pattern printer (`patterns`)
//! writes the two table entries that show the masks.
//!
//! What is proved of the walk stands in `lanes`, `tiling`, `grids`, `image`
//! and `inference`.

pub mod blocks;
pub mod error;
pub mod format;
pub mod grids;
pub mod image;
pub mod inference;
pub mod lanes;
pub mod lut;
pub mod masks;
pub mod mipmaps;
pub mod patterns;
pub mod payload;
pub mod text;
pub mod tiling;
pub mod walk;

pub use crate::blocks::read_vec;
pub use crate::error::SwizzleError;
pub use crate::format::{get_tile_edge, get_tile_size, try_get_image_format, ImageFormat};
pub use crate::image::{deswizzle_data, swizzle_data};
pub use crate::lut::{create_deswizzle_luts, create_mip_deswizzle_lut, get_mipmap_range};
pub use crate::masks::{swizzle_x_16, swizzle_x_8, swizzle_y_16, swizzle_y_8};
pub use crate::mipmaps::{read_mipmaps_dds, DdsLayout};
pub use crate::patterns::{get_swizzle_patterns_output, guess_swizzle_patterns};
pub use crate::payload::{write_bc1_lut, write_bc3_lut, write_bc7_lut, write_rgba_lut};
pub use crate::walk::{mask_walk, swizzle_experimental};
