//! What pictures of a stream look like.

use crate::api::color::{ColorSpace, PixelFormat};
use crate::api::config::Codec;
use vstd::prelude::*;

verus! {

/// What pictures of a stream look like.
#[derive(Debug, Clone, Copy, PartialEq, Eq, Structural)]
pub struct StreamFormat {
    pub codec: Codec,
    pub coded_width: usize,
    pub coded_height: usize,
    pub crop_left: usize,
    pub crop_top: usize,
    pub display_width: usize,
    pub display_height: usize,
    pub color_space: Option<ColorSpace>,
    pub pixel_format: PixelFormat,
    pub bit_depth: u8,
}

} // verus!
