//! The decoder's state: modes, motion vectors, frame buffers and the per-frame context.

use crate::grid::{Grid, Pic, Plane};
use crate::tables::{CoefProbs, MvContext, Prob};
use vstd::array::spec_array_fill_for_copy_type;
use vstd::prelude::*;

verus! {

/// The smallest quantizer index.
pub const MIN_Q: i32 = 0;

/// Reference frames a macroblock can name, "none" among them.
pub const MAX_REF_FRAMES: usize = 4;

/// Frame buffers of a decoder.
pub const NUM_YV12_BUFFERS: usize = 4;

/// Partitions of a frame: the first one and up to eight token partitions.
pub const MAX_PARTITIONS: usize = 9;

/// Probabilities of the segment tree.
pub const MB_FEATURE_TREE_PROBS: usize = 3;

/// Segments of a frame.
pub const MAX_MB_SEGMENTS: usize = 4;

/// Loop filter adjustments by reference frame.
pub const MAX_REF_LF_DELTAS: usize = 4;

/// Loop filter adjustments by prediction mode.
pub const MAX_MODE_LF_DELTAS: usize = 4;

/// The strongest loop filter level.
pub const MAX_LOOP_FILTER: usize = 63;

/// Pixels that the border adds on each side of the luma plane.
pub const VP8_BORDER_IN_PIXELS: i32 = 32;

/// Bytes of the frame tag.
pub const VP8_HEADER_SIZE: usize = 3;

/// A motion vector, in eighths of a luma pixel.
#[derive(Clone, Copy, PartialEq, Eq, Structural, Debug)]
pub struct Mv {
    pub row: i16,
    pub col: i16,
}

/// No motion.
pub open spec fn zero_mv() -> Mv {
    Mv { row: 0, col: 0 }
}

impl Default for Mv {
    fn default() -> (m: Mv)
        ensures
            m == zero_mv(),
    {
        Mv { row: 0, col: 0 }
    }
}

/// A vector packed into one number: the column above the row, both modulo `2^16`.
pub open spec fn packed_mv(m: Mv) -> int {
    (m.col as int % 0x1_0000) * 0x1_0000 + m.row as int % 0x1_0000
}

proof fn lemma_wrap16(x: i16)
    ensures
        (x as u16) as int == (x as int) % 0x1_0000,
        (x as u16) as i16 == x,
{
    assert((x >= 0 ==> (x as u16) as int == x as int) && (x < 0 ==> (x as u16) as int == x as int
        + 0x1_0000) && (x as u16) as i16 == x) by (bit_vector);
}

/// Packs a motion vector into one number.
pub fn mv_as_int(m: Mv) -> (v: u32)
    ensures
        v == packed_mv(m),
{
    let row: u32 = m.row as u16 as u32;
    let col: u32 = m.col as u16 as u32;
    proof {
        lemma_wrap16(m.row);
        lemma_wrap16(m.col);
        assert(row < 0x1_0000 && col < 0x1_0000 ==> (col << 16) | row == col * 0x1_0000 + row)
            by (bit_vector);
    }
    (col << 16) | row
}

/// Unpacks a motion vector.
pub fn mv_from_int(v: u32) -> (m: Mv)
    ensures
        packed_mv(m) == v,
{
    let row: i16 = v as u16 as i16;
    let col: i16 = (v >> 16) as u16 as i16;
    proof {
        assert((((v >> 16) as u16 as i16) as u16) as int * 0x1_0000 + ((v as u16 as i16) as u16)
            as int == v as int) by (bit_vector);
        lemma_wrap16(row);
        lemma_wrap16(col);
    }
    Mv { row, col }
}

/// Packing loses nothing: different vectors have different numbers, and so unpacking a packed
/// vector gives it back.
pub proof fn law_packed_mv_injective(a: Mv, b: Mv)
    ensures
        packed_mv(a) == packed_mv(b) <==> a == b,
{
    let ra = a.row as int % 0x1_0000;
    let rb = b.row as int % 0x1_0000;
    if packed_mv(a) == packed_mv(b) {
        assert(ra == rb && a.col as int % 0x1_0000 == b.col as int % 0x1_0000);
        assert(a.row == b.row && a.col == b.col);
    }
}

/// A position.
#[derive(Clone, Copy, PartialEq, Eq, Structural, Debug)]
pub struct Pos {
    pub r: i32,
    pub c: i32,
}

/// The kind of a frame.
#[derive(Clone, Copy, PartialEq, Eq, Structural, Debug)]
pub enum FrameType {
    Key,
    Inter,
}

/// How a macroblock is predicted.
#[derive(Clone, Copy, PartialEq, Eq, Structural, Debug)]
pub enum MbPredictionMode {
    DcPred,
    VPred,
    HPred,
    TmPred,
    BPred,
    NearestMv,
    NearMv,
    ZeroMv,
    NewMv,
    SplitMv,
}

/// Macroblock prediction modes.
pub const MB_MODE_COUNT: usize = 10;

/// How a subblock is predicted.
#[derive(Clone, Copy, PartialEq, Eq, Structural, Debug)]
pub enum BPredictionMode {
    DcPred,
    TmPred,
    VePred,
    HePred,
    LdPred,
    RdPred,
    VrPred,
    VlPred,
    HdPred,
    HuPred,
    Left4x4,
    Above4x4,
    Zero4x4,
    New4x4,
}

/// Subblock prediction modes.
pub const B_MODE_COUNT: usize = 14;

/// The frame that a macroblock is predicted from.
#[derive(Clone, Copy, PartialEq, Eq, Structural, Debug)]
pub enum MvReferenceFrame {
    Intra,
    Last,
    Golden,
    Altref,
}

pub const INTRA_FRAME: usize = 0;

pub const LAST_FRAME: usize = 1;

pub const GOLDEN_FRAME: usize = 2;

pub const ALTREF_FRAME: usize = 3;

/// The flag that names the last frame.
pub const VP8_LAST_FRAME: i32 = 1;

/// The flag that names the golden frame.
pub const VP8_GOLD_FRAME: i32 = 2;

/// The flag that names the alternate reference frame.
pub const VP8_ALTR_FRAME: i32 = 4;

/// What a segment can adjust.
#[derive(Clone, Copy, PartialEq, Eq, Structural, Debug)]
pub enum MbLevelFeature {
    AltQ,
    AltLf,
}

/// Segment features.
pub const MB_LVL_MAX: usize = 2;

/// The loop filter of a frame.
#[derive(Clone, Copy, PartialEq, Eq, Structural, Debug)]
pub enum LoopFilterType {
    Normal,
    Simple,
}

/// Whether the reconstruction needs clamping.
#[derive(Clone, Copy, PartialEq, Eq, Structural, Debug)]
pub enum ClampType {
    Required,
    NotRequired,
}

/// The number of token partitions.
#[derive(Clone, Copy, PartialEq, Eq, Structural, Debug)]
pub enum TokenPartition {
    One,
    Two,
    Four,
    Eight,
}

/// What is known of a subblock: its intra mode or its motion vector.
#[derive(Clone, Copy, PartialEq, Eq, Structural, Debug)]
pub enum BModeInfo {
    Intra(BPredictionMode),
    Mv(Mv),
}

/// Whether a neighbouring block had coefficients.
pub type EntropyContext = i8;

/// The contexts of a macroblock edge: four luma, two and two chroma, and one second order.
#[derive(Clone, Copy)]
pub struct EntropyContextPlanes {
    pub ctx: [EntropyContext; 9],
}

impl EntropyContextPlanes {
    /// Every context is zero or one.
    pub open spec fn ok(self) -> bool {
        forall|i: int| 0 <= i < 9 ==> 0 <= #[trigger] self.ctx[i] <= 1
    }
}

/// Contexts without coefficients.
pub open spec fn no_context() -> EntropyContextPlanes {
    EntropyContextPlanes { ctx: spec_array_fill_for_copy_type::<i8, 9>(0) }
}

impl Default for EntropyContextPlanes {
    fn default() -> (e: EntropyContextPlanes)
        ensures
            e == no_context(),
            e.ok(),
    {
        EntropyContextPlanes { ctx: [0i8; 9] }
    }
}

/// Where the luma contexts start.
pub const ECTX_Y1: usize = 0;

/// Where the chroma contexts start.
pub const ECTX_UV: usize = 4;

/// The second order context.
pub const ECTX_Y2: usize = 8;

/// The modes of a macroblock.
#[derive(Clone, Copy, PartialEq, Eq, Structural, Debug)]
pub struct MbModeInfo {
    pub mode: MbPredictionMode,
    pub uv_mode: MbPredictionMode,
    pub ref_frame: MvReferenceFrame,
    pub is_4x4: bool,
    pub mv: Mv,
    pub partitioning: u8,
    pub mb_skip_coeff: bool,
    pub need_to_clamp_mvs: bool,
    pub segment_id: u8,
}

/// The modes of a macroblock and of its sixteen subblocks.
#[derive(Clone, Copy)]
pub struct ModeInfo {
    pub mbmi: MbModeInfo,
    pub bmi: [BModeInfo; 16],
}

/// The modes of a macroblock that nothing has been said of.
pub open spec fn blank_mode_info() -> ModeInfo {
    ModeInfo {
        mbmi: MbModeInfo {
            mode: MbPredictionMode::DcPred,
            uv_mode: MbPredictionMode::DcPred,
            ref_frame: MvReferenceFrame::Intra,
            is_4x4: false,
            mv: zero_mv(),
            partitioning: 0,
            mb_skip_coeff: false,
            need_to_clamp_mvs: false,
            segment_id: 0,
        },
        bmi: spec_array_fill_for_copy_type::<BModeInfo, 16>(BModeInfo::Mv(zero_mv())),
    }
}

impl Default for ModeInfo {
    fn default() -> (m: ModeInfo)
        ensures
            m == blank_mode_info(),
    {
        ModeInfo {
            mbmi: MbModeInfo {
                mode: MbPredictionMode::DcPred,
                uv_mode: MbPredictionMode::DcPred,
                ref_frame: MvReferenceFrame::Intra,
                is_4x4: false,
                mv: Mv { row: 0, col: 0 },
                partitioning: 0,
                mb_skip_coeff: false,
                need_to_clamp_mvs: false,
                segment_id: 0,
            },
            bmi: [BModeInfo::Mv(Mv { row: 0, col: 0 }); 16],
        }
    }
}

/// The result codes of the decoder.
#[derive(Clone, Copy, PartialEq, Eq, Structural, Debug)]
pub enum VpxCodecErr {
    VPX_CODEC_OK,
    VPX_CODEC_ERROR,
    VPX_CODEC_MEM_ERROR,
    VPX_CODEC_ABI_MISMATCH,
    VPX_CODEC_INCAPABLE,
    VPX_CODEC_UNSUP_BITSTREAM,
    VPX_CODEC_UNSUP_FEATURE,
    VPX_CODEC_CORRUPT_FRAME,
    VPX_CODEC_INVALID_PARAM,
    VPX_CODEC_LIST_END,
}

/// A value or a result code.
pub type VpxResult<T> = Result<T, VpxCodecErr>;

/// The last error of a decoder.
#[derive(Clone, Copy, PartialEq, Eq, Structural, Debug)]
pub struct VpxInternalErrorInfo {
    pub error_code: VpxCodecErr,
}

/// The probabilities that adapt from frame to frame.
#[derive(Clone, Copy)]
pub struct FrameContext {
    pub bmode_prob: [Prob; 9],
    pub ymode_prob: [Prob; 4],
    pub uv_mode_prob: [Prob; 3],
    pub sub_mv_ref_prob: [Prob; 3],
    pub coef_probs: CoefProbs,
    pub mvc: [MvContext; 2],
}

/// The three planes of a picture.
#[verifier::ext_equal]
pub struct Yuv {
    pub y: Pic,
    pub u: Pic,
    pub v: Pic,
}

/// The three planes of a frame buffer, borders included.
pub struct FramePlanes {
    pub y: Plane,
    pub u: Plane,
    pub v: Plane,
}

impl FramePlanes {
    /// The pixels.
    pub open spec fn view(&self) -> Yuv {
        Yuv { y: self.y@, u: self.u@, v: self.v@ }
    }

    /// Planes without pixels.
    pub fn empty() -> (p: FramePlanes)
        ensures
            p.y.spec_rows() == 0,
            p.u.spec_rows() == 0,
            p.v.spec_rows() == 0,
            p@ == (Yuv { y: Seq::empty(), u: Seq::empty(), v: Seq::empty() }),
    {
        FramePlanes { y: Grid::empty(), u: Grid::empty(), v: Grid::empty() }
    }

    /// Planes with the same pixels.
    pub fn copy(&self) -> (p: FramePlanes)
        ensures
            p@ == self@,
            p.sized_as(self),
    {
        FramePlanes { y: self.y.copy(), u: self.u.copy(), v: self.v.copy() }
    }

    /// The planes hold `rows x cols` macroblocks and a border of 32 luma pixels on every side.
    pub open spec fn holds(&self, rows: int, cols: int) -> bool {
        &&& 1 <= rows <= 1024
        &&& 1 <= cols <= 1024
        &&& self.y.spec_rows() == 16 * rows + 64
        &&& 16 * cols + 64 <= self.y.spec_stride() <= 16 * cols + 95
        &&& self.u.spec_rows() == 8 * rows + 32
        &&& 8 * cols + 32 <= self.u.spec_stride() <= 8 * cols + 47
        &&& self.v.spec_rows() == 8 * rows + 32
        &&& self.v.spec_stride() == self.u.spec_stride()
    }

    /// The planes have the same sizes as those of `other`.
    pub open spec fn sized_as(&self, other: &FramePlanes) -> bool {
        &&& self.y.spec_rows() == other.y.spec_rows()
        &&& self.y.spec_stride() == other.y.spec_stride()
        &&& self.u.spec_rows() == other.u.spec_rows()
        &&& self.u.spec_stride() == other.u.spec_stride()
        &&& self.v.spec_rows() == other.v.spec_rows()
        &&& self.v.spec_stride() == other.v.spec_stride()
    }
}

/// How far a macroblock lies from the edges of the frame, in eighths of a pixel. What lies
/// before it is counted negative.
#[derive(Clone, Copy, PartialEq, Eq, Structural, Debug)]
pub struct MbEdges {
    pub left: i32,
    pub right: i32,
    pub top: i32,
    pub bottom: i32,
}

/// The edges around the macroblock in row `r` and column `c` of `rows x cols`.
pub open spec fn edges_at(r: int, c: int, rows: int, cols: int) -> MbEdges {
    MbEdges {
        left: (-128 * c) as i32,
        right: (128 * (cols - 1 - c)) as i32,
        top: (-128 * r) as i32,
        bottom: (128 * (rows - 1 - r)) as i32,
    }
}

/// The edges around the macroblock in row `r` and column `c` of `rows x cols`.
pub fn mb_edges(r: usize, c: usize, rows: usize, cols: usize) -> (e: MbEdges)
    requires
        r < rows <= 1024,
        c < cols <= 1024,
    ensures
        e == edges_at(r as int, c as int, rows as int, cols as int),
        e.left == -128 * c,
        e.right == 128 * (cols - 1 - c),
        e.top == -128 * r,
        e.bottom == 128 * (rows - 1 - r),
{
    MbEdges {
        left: -(128 * (c as i32)),
        right: 128 * ((cols - 1 - c) as i32),
        top: -(128 * (r as i32)),
        bottom: 128 * ((rows - 1 - r) as i32),
    }
}

/// The filter that interpolates between pixels.
#[derive(Clone, Copy, PartialEq, Eq, Structural, Debug)]
pub enum SubpixFn {
    Sixtap,
    Bilinear,
}

/// A frame buffer.
pub struct Yv12BufferConfig {
    /// The width of the luma plane without its border.
    pub y_width: i32,
    /// The height of the luma plane without its border.
    pub y_height: i32,
    pub y_stride: i32,
    pub uv_width: i32,
    pub uv_height: i32,
    pub uv_stride: i32,
    /// The planes with their borders.
    pub planes: FramePlanes,
    /// The width of the luma border.
    pub border: i32,
    /// The number of pixels of all planes.
    pub frame_size: usize,
    /// Not zero where the pixels may be wrong.
    pub corrupted: i32,
    pub flags: i32,
}

impl Yv12BufferConfig {
    /// The buffer holds `rows x cols` macroblocks.
    pub open spec fn holds(&self, rows: int, cols: int) -> bool {
        &&& self.planes.holds(rows, cols)
        &&& self.y_width == 16 * cols
        &&& self.y_height == 16 * rows
        &&& self.y_stride == self.planes.y.spec_stride()
        &&& self.uv_width == 8 * cols
        &&& self.uv_height == 8 * rows
        &&& self.uv_stride == self.planes.u.spec_stride()
        &&& self.border == 32
    }

    /// A buffer without pixels.
    pub fn empty() -> (b: Yv12BufferConfig)
        ensures
            b.y_width == 0,
            b.y_height == 0,
            b.y_stride == 0,
            b.uv_width == 0,
            b.uv_height == 0,
            b.uv_stride == 0,
            b.border == 0,
            b.frame_size == 0,
            b.corrupted == 0,
            b.flags == 0,
            b.planes@ == (Yuv { y: Seq::empty(), u: Seq::empty(), v: Seq::empty() }),
            b.planes.y.spec_rows() == 0,
            b.planes.u.spec_rows() == 0,
            b.planes.v.spec_rows() == 0,
    {
        Yv12BufferConfig {
            y_width: 0,
            y_height: 0,
            y_stride: 0,
            uv_width: 0,
            uv_height: 0,
            uv_stride: 0,
            planes: FramePlanes::empty(),
            border: 0,
            frame_size: 0,
            corrupted: 0,
            flags: 0,
        }
    }

    /// Where the first luma pixel inside the border lies in its plane.
    pub fn y_buffer(&self) -> (n: usize)
        requires
            0 <= self.border <= 64,
            0 <= self.y_stride <= 0x1_0000,
        ensures
            n == self.border * self.y_stride + self.border,
    {
        assert(0 <= self.border * self.y_stride <= 64 * 0x1_0000) by (nonlinear_arith)
            requires
                0 <= self.border <= 64,
                0 <= self.y_stride <= 0x1_0000,
        ;
        (self.border * self.y_stride + self.border) as usize
    }

    /// Where the first chroma pixel inside the border lies in its plane.
    pub fn u_buffer(&self) -> (n: usize)
        requires
            0 <= self.border <= 64,
            0 <= self.uv_stride <= 0x1_0000,
        ensures
            n == (self.border as int / 2) * self.uv_stride + self.border as int / 2,
    {
        let b: i32 = self.border / 2;
        assert(0 <= b * self.uv_stride <= 64 * 0x1_0000) by (nonlinear_arith)
            requires
                0 <= b <= 64,
                0 <= self.uv_stride <= 0x1_0000,
        ;
        (b * self.uv_stride + b) as usize
    }

    /// Where the first pixel of the second chroma plane lies in it.
    pub fn v_buffer(&self) -> (n: usize)
        requires
            0 <= self.border <= 64,
            0 <= self.uv_stride <= 0x1_0000,
        ensures
            n == (self.border as int / 2) * self.uv_stride + self.border as int / 2,
    {
        self.u_buffer()
    }
}

/// Where the pixels of a picture start in its planes.
#[derive(Clone, Copy, PartialEq, Eq, Structural, Debug)]
pub struct PlaneRef {
    pub y_buffer: usize,
    pub u_buffer: usize,
    pub v_buffer: usize,
    pub y_stride: i32,
    pub uv_stride: i32,
}

impl PlaneRef {
    /// The start of the pixels of `ybf`.
    pub fn of(ybf: &Yv12BufferConfig) -> (r: PlaneRef)
        requires
            0 <= ybf.border <= 64,
            0 <= ybf.y_stride <= 0x1_0000,
            0 <= ybf.uv_stride <= 0x1_0000,
        ensures
            r.y_buffer == ybf.border * ybf.y_stride + ybf.border,
            r.u_buffer == (ybf.border as int / 2) * ybf.uv_stride + ybf.border as int / 2,
            r.v_buffer == r.u_buffer,
            r.y_stride == ybf.y_stride,
            r.uv_stride == ybf.uv_stride,
    {
        PlaneRef {
            y_buffer: ybf.y_buffer(),
            u_buffer: ybf.u_buffer(),
            v_buffer: ybf.v_buffer(),
            y_stride: ybf.y_stride,
            uv_stride: ybf.uv_stride,
        }
    }
}

/// A decoded picture: the buffer that holds it and the part of it to be shown.
#[derive(Clone, Copy, PartialEq, Eq, Structural, Debug)]
pub struct FrameView {
    /// The number of the frame buffer.
    pub fb_idx: i32,
    pub y_buffer: usize,
    pub u_buffer: usize,
    pub v_buffer: usize,
    pub y_stride: i32,
    pub uv_stride: i32,
    pub display_width: i32,
    pub display_height: i32,
}

/// A subblock of the macroblock being decoded.
#[derive(Clone, Copy, PartialEq, Eq, Structural, Debug)]
pub struct Blockd {
    /// Where its first pixel lies, counted from the first pixel of the macroblock.
    pub offset: i32,
}

/// The macroblock being decoded, and what the frame header says for all of them.
#[derive(Clone, Copy)]
pub struct Macroblockd {
    pub qcoeff: [i16; 400],
    pub eobs: [i8; 25],
    pub dequant_y1: [i16; 16],
    pub dequant_y1_dc: [i16; 16],
    pub dequant_y2: [i16; 16],
    pub dequant_uv: [i16; 16],
    pub block: [Blockd; 25],
    /// What chroma vectors are combined with to give whole pixels.
    pub fullpixel_mask: i32,
    pub mode_info_stride: i32,
    pub frame_type: FrameType,
    pub segmentation_enabled: u8,
    pub update_mb_segmentation_map: u8,
    pub update_mb_segmentation_data: u8,
    pub mb_segment_abs_delta: u8,
    pub mb_segment_tree_probs: [Prob; 3],
    pub segment_feature_data: [[i8; 4]; 2],
    pub mode_ref_lf_delta_enabled: u8,
    pub mode_ref_lf_delta_update: u8,
    pub ref_lf_deltas: [i8; 4],
    pub mode_lf_deltas: [i8; 4],
    /// The filter that interpolates between pixels.
    pub subpixel_predict: SubpixFn,
    pub corrupted: i32,
}

/// The limits of the loop filter at all levels, and what decides about the level.
#[derive(Clone, Copy)]
pub struct LoopFilterInfoN {
    pub mblim: [u8; 64],
    pub blim: [u8; 64],
    pub lim: [u8; 64],
    pub hev_thr: [u8; 4],
    /// The level by segment, reference frame and class of the prediction mode.
    pub lvl: [[[u8; 4]; 4]; 4],
    /// The number of the threshold by kind of frame and level.
    pub hev_thr_lut: [[u8; 64]; 2],
    /// The class of each prediction mode.
    pub mode_lf_lut: [u8; 10],
}

/// The frame tag.
#[derive(Clone, Copy, PartialEq, Eq, Structural, Debug)]
pub struct Vp8Header {
    pub frame_type: u8,
    pub version: u8,
    pub show_frame: u8,
    pub first_partition_length_in_bytes: u32,
}

/// The state that frames share.
pub struct Vp8Common {
    pub error: VpxInternalErrorInfo,
    pub y1_dequant: [[i16; 2]; 128],
    pub y2_dequant: [[i16; 2]; 128],
    pub uv_dequant: [[i16; 2]; 128],
    pub width: i32,
    pub height: i32,
    pub horiz_scale: i32,
    pub vert_scale: i32,
    pub clamp_type: ClampType,
    pub frame_to_show_idx: i32,
    pub yv12_fb: [Yv12BufferConfig; 4],
    /// A strip of one row of macroblocks, as wide as a frame.
    pub temp_scale_frame: Yv12BufferConfig,
    pub fb_idx_ref_cnt: [i32; 4],
    pub new_fb_idx: i32,
    pub lst_fb_idx: i32,
    pub gld_fb_idx: i32,
    pub alt_fb_idx: i32,
    pub frame_type: FrameType,
    pub show_frame: i32,
    pub mbs: i32,
    pub mb_rows: i32,
    pub mb_cols: i32,
    pub mode_info_stride: i32,
    pub mb_no_coeff_skip: i32,
    pub no_lpf: i32,
    pub use_bilinear_mc_filter: i32,
    pub full_pixel: i32,
    pub base_qindex: i32,
    pub y1dc_delta_q: i32,
    pub y2dc_delta_q: i32,
    pub y2ac_delta_q: i32,
    pub uvdc_delta_q: i32,
    pub uvac_delta_q: i32,
    /// The modes of all macroblocks, with a row above and a column to the left of them.
    pub mip: Grid<ModeInfo>,
    pub filter_type: LoopFilterType,
    pub lf_info: LoopFilterInfoN,
    pub filter_level: i32,
    pub last_sharpness_level: i32,
    pub sharpness_level: i32,
    pub refresh_last_frame: i32,
    pub refresh_golden_frame: i32,
    pub refresh_alt_ref_frame: i32,
    pub copy_buffer_to_gf: i32,
    pub copy_buffer_to_arf: i32,
    pub refresh_entropy_probs: i32,
    pub ref_frame_sign_bias: [i32; 4],
    pub above_context: Vec<EntropyContextPlanes>,
    pub left_context: EntropyContextPlanes,
    pub lfc: FrameContext,
    pub fc: FrameContext,
    pub current_video_frame: u32,
    pub version: i32,
    pub multi_token_partition: TokenPartition,
}

/// What a decoder is created with.
#[derive(Clone, Copy, PartialEq, Eq, Structural, Debug)]
pub struct Vp8dConfig {
    pub width: i32,
    pub height: i32,
    pub version: i32,
    pub postprocess: i32,
    pub max_threads: i32,
    pub error_concealment: i32,
}

/// The pieces in which a compressed frame was handed over.
pub struct FragmentData {
    pub enabled: i32,
    pub count: u32,
    pub data: [Vec<u8>; 9],
}

/// A decoder.
pub struct Vp8dComp {
    pub mb: Macroblockd,
    /// The buffers of the frame being decoded and of its reference frames.
    pub dec_fb_ref_idx: [i32; 4],
    pub common: Vp8Common,
    pub oxcf: Vp8dConfig,
    pub ready_for_new_data: i32,
    pub prob_intra: Prob,
    pub prob_last: Prob,
    pub prob_gf: Prob,
    pub prob_skip_false: Prob,
    pub ec_enabled: i32,
    pub ec_active: i32,
    pub decoded_key_frame: i32,
    pub independent_partitions: i32,
    pub frame_corrupt_residual: i32,
}

/// Which postprocessing is asked for.
#[derive(Clone, Copy, PartialEq, Eq, Structural, Debug)]
pub struct Vp8PpFlags {
    pub post_proc_flag: i32,
    pub deblocking_level: i32,
    pub noise_level: i32,
    pub display_ref_frame_flag: i32,
    pub display_mb_modes_flag: i32,
    pub display_b_modes_flag: i32,
    pub display_mv_flag: i32,
}

/// The decoder, once it has been created.
pub struct FrameBuffers {
    pub pbi: Option<Box<Vp8dComp>>,
}

/// A macroblock is sixteen pixels further from the left edge than the one to its left, and as much
/// nearer to the right one; so it is with top and bottom. The first ones touch the left and the top
/// edge, and the last ones the right and the bottom one.
pub proof fn law_edges(r: int, c: int, rows: int, cols: int)
    requires
        0 <= r < rows <= 1024,
        0 <= c < cols <= 1024,
    ensures
        ({
            let e = edges_at(r, c, rows, cols);
            let right = edges_at(r, c + 1, rows, cols);
            let below = edges_at(r + 1, c, rows, cols);
            &&& c == 0 <==> e.left == 0
            &&& r == 0 <==> e.top == 0
            &&& c == cols - 1 <==> e.right == 0
            &&& r == rows - 1 <==> e.bottom == 0
            &&& e.left - right.left == 16 * 8
            &&& e.right - right.right == 16 * 8
            &&& e.top - below.top == 16 * 8
            &&& e.bottom - below.bottom == 16 * 8
            &&& right.top == e.top && right.bottom == e.bottom
            &&& below.left == e.left && below.right == e.right
        }),
{
}

} // verus!
