//! Pictures as planes, and the memory that they take.

use crate::api::color::VideoPlane;
use vstd::prelude::*;

verus! {

/// A view of a plane of a picture: row `i` is the `width` bytes from `i * stride` on.
pub struct PlaneView<'a> {
    pub plane: VideoPlane,
    pub data: &'a [u8],
    pub stride: usize,
    pub width: usize,
    pub height: usize,
}

/// A picture.
pub trait VideoFrame {
    /// What holds of the picture.
    spec fn whole(&self) -> bool;

    /// A plane of the picture, where it has it.
    fn plane(&self, plane: VideoPlane) -> (v: Option<PlaneView<'_>>)
        requires
            self.whole(),
    ;

    /// All planes of the picture.
    fn planes(&self) -> (v: [Option<PlaneView<'_>>; 4])
        requires
            self.whole(),
    ;
}

/// Memory for a plane.
#[derive(Debug, Clone, Copy, PartialEq, Eq, Structural)]
pub struct PlaneAllocation {
    pub plane: VideoPlane,
    pub size_bytes: usize,
    pub alignment: usize,
}

/// Memory for a picture.
#[derive(Debug, Clone, Copy, PartialEq, Eq)]
pub struct BufferAllocation {
    pub planes: [Option<PlaneAllocation>; 4],
}

/// Why there is no memory.
#[derive(Debug, Clone, Copy, PartialEq, Eq, Structural)]
pub enum AllocError {
    UnsupportedAlignment,
    OutOfMemory,
}

} // verus!
