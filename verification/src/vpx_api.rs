//! What a user of the decoder sees: flags, stream information and pictures.

use crate::types::{FramePlanes, Yuv};
use vstd::prelude::*;

verus! {

/// Ask for postprocessing.
pub const VPX_CODEC_USE_POSTPROC: u32 = 0x1_0000;

/// Ask for errors to be concealed.
pub const VPX_CODEC_USE_ERROR_CONCEALMENT: u32 = 0x2_0000;

/// Frames are handed over in fragments.
pub const VPX_CODEC_USE_INPUT_FRAGMENTS: u32 = 0x4_0000;

/// The picture format with three planes and chroma at half the size.
pub const VPX_IMG_FMT_I420: u32 = 0x102;

/// The number of the luma plane.
pub const VPX_PLANE_Y: usize = 0;

/// The number of the first chroma plane.
pub const VPX_PLANE_U: usize = 1;

/// The number of the second chroma plane.
pub const VPX_PLANE_V: usize = 2;

/// The number of the plane of transparency.
pub const VPX_PLANE_ALPHA: usize = 3;

/// Flags that a decoder is made with.
pub type VpxCodecFlags = u32;

/// What is known of a stream: the size of its frames, and whether the last one was a key frame.
#[derive(Clone, Copy, PartialEq, Eq, Structural, Debug)]
pub struct VpxCodecStreamInfo {
    pub sz: u32,
    pub w: u32,
    pub h: u32,
    pub is_kf: u32,
}

/// The size that stream information says it has.
pub const STREAM_INFO_SIZE: u32 = 16;

/// How a decoder is configured.
#[derive(Clone, Copy, PartialEq, Eq, Structural, Debug)]
pub struct VpxCodecDecCfg {
    pub threads: u32,
    pub w: u32,
    pub h: u32,
}

/// A picture. Its planes come with a border, which is half of what the rows are longer than the
/// picture is wide.
pub struct VpxImage {
    pub fmt: u32,
    pub w: u32,
    pub h: u32,
    pub d_w: u32,
    pub d_h: u32,
    pub r_w: u32,
    pub r_h: u32,
    pub x_chroma_shift: u32,
    pub y_chroma_shift: u32,
    pub planes: FramePlanes,
    /// Where the first pixel of each plane lies in it.
    pub origin: [usize; 4],
    pub stride: [i32; 4],
    pub bit_depth: u32,
    pub bps: i32,
}

/// No picture.
pub open spec fn no_image(img: VpxImage) -> bool {
    &&& img.fmt == 0
    &&& img.w == 0
    &&& img.h == 0
    &&& img.d_w == 0
    &&& img.d_h == 0
    &&& img.r_w == 0
    &&& img.r_h == 0
    &&& img.x_chroma_shift == 0
    &&& img.y_chroma_shift == 0
    &&& img.planes@ == (Yuv { y: Seq::empty(), u: Seq::empty(), v: Seq::empty() })
    &&& img.origin@ == seq![0usize, 0, 0, 0]
    &&& img.stride@ == seq![0i32, 0, 0, 0]
    &&& img.bit_depth == 0
    &&& img.bps == 0
}

impl VpxImage {
    /// No picture.
    pub fn empty() -> (img: VpxImage)
        ensures
            no_image(img),
    {
        let img = VpxImage {
            fmt: 0,
            w: 0,
            h: 0,
            d_w: 0,
            d_h: 0,
            r_w: 0,
            r_h: 0,
            x_chroma_shift: 0,
            y_chroma_shift: 0,
            planes: FramePlanes::empty(),
            origin: [0; 4],
            stride: [0; 4],
            bit_depth: 0,
            bps: 0,
        };
        assert(img.origin@ =~= seq![0usize, 0, 0, 0]);
        assert(img.stride@ =~= seq![0i32, 0, 0, 0]);
        img
    }
}

} // verus!
