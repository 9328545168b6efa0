//! Pictures as they are handed to the application.

use crate::api::color::VideoPlane;
use crate::api::frame::{PlaneView, VideoFrame};
use crate::grid::Plane;
use crate::types::{FramePlanes, Yv12BufferConfig};
use vstd::prelude::*;

verus! {

/// A picture: planes with a border around the pixels to show.
pub struct PublishedFrame {
    pub buffer: FramePlanes,
    pub y_crop_width: i32,
    pub y_crop_height: i32,
    pub y_stride: i32,
    pub uv_crop_width: i32,
    pub uv_crop_height: i32,
    pub uv_stride: i32,
    pub border: i32,
}

/// A plane holds `h` rows of `w` pixels and a border around them.
pub open spec fn plane_holds(p: Plane, stride: int, h: int, w: int, border: int) -> bool {
    &&& 1 <= h
    &&& 1 <= w
    &&& 0 <= border
    &&& p.spec_stride() == stride
    &&& border + h <= p.spec_rows()
    &&& border + w <= stride
}

/// `f` shows `w x h` pixels of the frame buffer `b`.
pub open spec fn published(b: Yv12BufferConfig, w: int, h: int, f: PublishedFrame) -> bool {
    &&& f.buffer@ == b.planes@
    &&& f.buffer.sized_as(&b.planes)
    &&& f.y_crop_width == w
    &&& f.y_crop_height == h
    &&& f.y_stride == b.y_stride
    &&& f.uv_crop_width == (w + 1) / 2
    &&& f.uv_crop_height == (h + 1) / 2
    &&& f.uv_stride == b.uv_stride
    &&& f.border == b.border
}

impl PublishedFrame {
    /// A picture that shows the first pixels of a frame buffer.
    pub fn new(
        ybf: &Yv12BufferConfig,
        display_width: i32,
        display_height: i32,
    ) -> (f: PublishedFrame)
        requires
            0 <= display_width < i32::MAX,
            0 <= display_height < i32::MAX,
        ensures
            published(*ybf, display_width as int, display_height as int, f),
    {
        PublishedFrame {
            buffer: ybf.planes.copy(),
            y_crop_width: display_width,
            y_crop_height: display_height,
            y_stride: ybf.y_stride,
            uv_crop_width: (display_width + 1) / 2,
            uv_crop_height: (display_height + 1) / 2,
            uv_stride: ybf.uv_stride,
            border: ybf.border,
        }
    }

    /// The pixels to show lie in the planes.
    pub open spec fn wf(&self) -> bool {
        &&& plane_holds(
            self.buffer.y,
            self.y_stride as int,
            self.y_crop_height as int,
            self.y_crop_width as int,
            self.border as int,
        )
        &&& plane_holds(
            self.buffer.u,
            self.uv_stride as int,
            self.uv_crop_height as int,
            self.uv_crop_width as int,
            self.border as int / 2,
        )
        &&& plane_holds(
            self.buffer.v,
            self.uv_stride as int,
            self.uv_crop_height as int,
            self.uv_crop_width as int,
            self.border as int / 2,
        )
    }
}

/// `v` shows `h` rows of `w` pixels of a plane from row and column `b` on.
pub open spec fn views(v: PlaneView<'_>, p: Plane, h: int, w: int, b: int) -> bool {
    &&& v.stride == p.spec_stride()
    &&& v.width == w
    &&& v.height == h
    &&& v.data@.len() == (h - 1) * p.spec_stride() + w
    &&& forall|i: int, j: int|
        #![trigger p@[b + i][b + j]]
        0 <= i < h && 0 <= j < w ==> v.data@[i * p.spec_stride() + j] == p@[b + i][b + j]
}

/// What `f` gives as its plane `plane`.
pub open spec fn plane_of(f: PublishedFrame, plane: VideoPlane, v: Option<PlaneView<'_>>) -> bool {
    let (h, w) = (f.uv_crop_height as int, f.uv_crop_width as int);
    match plane {
        VideoPlane::Y => {
            &&& v is Some
            &&& v->0.plane == plane
            &&& views(
                v->0,
                f.buffer.y,
                f.y_crop_height as int,
                f.y_crop_width as int,
                f.border as int,
            )
        },
        VideoPlane::U => {
            &&& v is Some
            &&& v->0.plane == plane
            &&& views(v->0, f.buffer.u, h, w, f.border as int / 2)
        },
        VideoPlane::V => {
            &&& v is Some
            &&& v->0.plane == plane
            &&& views(v->0, f.buffer.v, h, w, f.border as int / 2)
        },
        _ => v is None,
    }
}

fn view_of(p: &Plane, plane: VideoPlane, h: usize, w: usize, b: usize) -> (v: PlaneView<'_>)
    requires
        plane_holds(*p, p.spec_stride() as int, h as int, w as int, b as int),
    ensures
        v.plane == plane,
        views(v, *p, h as int, w as int, b as int),
{
    let data: &[u8] = p.window(b, b, h, w);
    PlaneView { plane, data, stride: p.stride(), width: w, height: h }
}

impl VideoFrame for PublishedFrame {
    open spec fn whole(&self) -> bool {
        self.wf()
    }

    fn plane(&self, plane: VideoPlane) -> (v: Option<PlaneView<'_>>)
        ensures
            plane_of(*self, plane, v),
    {
        let uv_h: usize = self.uv_crop_height as usize;
        let uv_w: usize = self.uv_crop_width as usize;
        let half: usize = (self.border / 2) as usize;
        match plane {
            VideoPlane::Y => Some(
                view_of(
                    &self.buffer.y,
                    plane,
                    self.y_crop_height as usize,
                    self.y_crop_width as usize,
                    self.border as usize,
                ),
            ),
            VideoPlane::U => Some(view_of(&self.buffer.u, plane, uv_h, uv_w, half)),
            VideoPlane::V => Some(view_of(&self.buffer.v, plane, uv_h, uv_w, half)),
            _ => None,
        }
    }

    fn planes(&self) -> (v: [Option<PlaneView<'_>>; 4])
        ensures
            plane_of(*self, VideoPlane::Y, v[0]),
            plane_of(*self, VideoPlane::U, v[1]),
            plane_of(*self, VideoPlane::V, v[2]),
            v[3] is None,
    {
        [
            self.plane(VideoPlane::Y),
            self.plane(VideoPlane::U),
            self.plane(VideoPlane::V),
            None,
        ]
    }
}

/// A picture shows the pixels of the frame that it was made of, without the border: luma pixel for
/// pixel, and half as many rows and columns of chroma, rounded up.
pub proof fn law_published_pixels(
    b: Yv12BufferConfig,
    w: int,
    h: int,
    f: PublishedFrame,
    y: PlaneView<'_>,
    u: PlaneView<'_>,
    v: PlaneView<'_>,
    i: int,
    j: int,
)
    requires
        published(b, w, h, f),
        plane_of(f, VideoPlane::Y, Some(y)),
        plane_of(f, VideoPlane::U, Some(u)),
        plane_of(f, VideoPlane::V, Some(v)),
        0 <= i < h,
        0 <= j < w,
        b.border == 32,
    ensures
        y.width == w && y.height == h,
        y.data@[i * y.stride + j] == b.planes.y@[32 + i][32 + j],
        2 * u.width == w || 2 * u.width == w + 1,
        2 * u.height == h || 2 * u.height == h + 1,
        v.width == u.width && v.height == u.height,
        u.data@[(i / 2) * u.stride + j / 2] == b.planes.u@[16 + i / 2][16 + j / 2],
        v.data@[(i / 2) * v.stride + j / 2] == b.planes.v@[16 + i / 2][16 + j / 2],
{
    assert(f.buffer@.y == b.planes@.y && f.buffer@.u == b.planes@.u && f.buffer@.v == b.planes@.v);
    let (m, n) = (i / 2, j / 2);
    assert(0 <= m < (h + 1) / 2 && 0 <= n < (w + 1) / 2);
    assert(f.buffer.y@[32 + i][32 + j] == b.planes.y@[32 + i][32 + j]);
    assert(f.buffer.u@[16 + m][16 + n] == b.planes.u@[16 + m][16 + n]);
    assert(f.buffer.v@[16 + m][16 + n] == b.planes.v@[16 + m][16 + n]);
}

} // verus!
