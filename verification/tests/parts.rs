//! The parts of the decoder, one by one.

use vp8_decoder_rs::alloccommon::{vp8_alloc_frame_buffers, vp8_remove_common};
use vp8_decoder_rs::dboolhuff::{
    vp8_decode_value, vp8dx_bool_error, vp8dx_decode_bool, vp8dx_start_decode, BoolDecoder,
};
use vp8_decoder_rs::decodeframe::vp8_decode_frame;
use vp8_decoder_rs::detokenize::{vp8_decode_mb_tokens, vp8_reset_mb_tokens_context};
use vp8_decoder_rs::entropymode::vp8_mv_cont;
use vp8_decoder_rs::findnearmv::{
    vp8_clamp_mv2, vp8_find_near_mvs, vp8_find_near_mvs_bias, vp8_mv_ref_probs, BiasedMvs,
};
use vp8_decoder_rs::framebufs::{get_free_fb, ref_cnt_fb, release_fb, swap_frame_buffers};
use vp8_decoder_rs::grid::Plane;
use vp8_decoder_rs::macroblock::{decode_macroblock, RefFrames};
use vp8_decoder_rs::mbpitch::vp8_build_block_doffsets;
use vp8_decoder_rs::newdecoder::create_decompressor;
use vp8_decoder_rs::onyxd_if::{vp8_create_decoder_instances, vp8_remove_decoder_instances};
use vp8_decoder_rs::partitions::split_partitions;
use vp8_decoder_rs::splitmv::vp8_check_mv_bounds;
use vp8_decoder_rs::tables::DEFAULT_COEF_PROBS;
use vp8_decoder_rs::types::{
    mv_as_int, mv_from_int, EntropyContextPlanes, FragmentData, FrameBuffers, FramePlanes,
    FrameType, MbEdges, MbPredictionMode, ModeInfo, Mv, MvReferenceFrame, PlaneRef, Vp8Common,
    Vp8dComp, Vp8dConfig, VpxCodecErr, Yv12BufferConfig,
};
use vp8_decoder_rs::vp8_loopfilter::{vp8_loop_filter_frame_init, vp8_loop_filter_row_normal};
use vp8_decoder_rs::yv12config::{vp8_yv12_alloc_frame_buffer, vp8_yv12_copy_frame};

const CONFIG: Vp8dConfig = Vp8dConfig {
    width: 0,
    height: 0,
    version: 0,
    postprocess: 0,
    max_threads: 0,
    error_concealment: 0,
};

fn mv(row: i16, col: i16) -> Mv {
    Mv { row, col }
}

/// A macroblock predicted from `from` with a vector.
fn moved(from: MvReferenceFrame, v: Mv) -> ModeInfo {
    let mut m: ModeInfo = ModeInfo::default();
    m.mbmi.mode = MbPredictionMode::NewMv;
    m.mbmi.ref_frame = from;
    m.mbmi.mv = v;
    m
}

/// The second macroblock of the second row, of three by three.
const MIDDLE: MbEdges = MbEdges { left: -128, right: 128, top: -128, bottom: 128 };

#[test]
fn vectors_are_packed_into_numbers() {
    assert_eq!(mv_as_int(mv(1, 2)), 0x0002_0001);
    assert_eq!(mv_as_int(mv(-1, 0)), 0x0000_ffff);
    assert_eq!(mv_as_int(mv(0, -2)), 0xfffe_0000);
    for m in [mv(0, 0), mv(5, -7), mv(-32768, 32767)] {
        assert_eq!(mv_from_int(mv_as_int(m)), m);
    }
}

#[test]
fn vectors_are_limited_once() {
    let far: Mv = vp8_clamp_mv2(mv(-300, 300), &MIDDLE);
    assert_eq!(far, mv(-256, 256));
    assert_eq!(vp8_clamp_mv2(far, &MIDDLE), far);
    assert_eq!(vp8_clamp_mv2(mv(9, -9), &MIDDLE), mv(9, -9));
    assert!(vp8_check_mv_bounds(&mv(-300, 300), &MIDDLE));
    assert!(!vp8_check_mv_bounds(&far, &MIDDLE));
}

#[test]
fn neighbours_give_the_candidates() {
    let last: MvReferenceFrame = MvReferenceFrame::Last;
    let above: ModeInfo = moved(last, mv(4, 6));
    let left: ModeInfo = moved(last, mv(8, 2));
    let aboveleft: ModeInfo = moved(last, mv(4, 6));
    let r = vp8_find_near_mvs(&above, &left, &aboveleft, last, &[0; 4]);
    assert_eq!(r.nearest, mv(4, 6));
    assert_eq!(r.nearby, mv(8, 2));
    assert_eq!(r.best_mv, mv(4, 6));
    assert_eq!(r.cnt, [0, 3, 2, 0]);
}

#[test]
fn candidates_are_ordered_by_weight() {
    let last: MvReferenceFrame = MvReferenceFrame::Last;
    let still: ModeInfo = moved(last, mv(0, 0));
    let intra: ModeInfo = ModeInfo::default();
    let r = vp8_find_near_mvs(&intra, &still, &moved(last, mv(2, 2)), last, &[0; 4]);
    assert_eq!(r.nearest, mv(2, 2));
    assert_eq!(r.nearby, mv(0, 0));
    assert_eq!(r.best_mv, mv(0, 0));
    assert_eq!(r.cnt, [2, 1, 0, 0]);
    let mut split: ModeInfo = moved(last, mv(6, 6));
    split.mbmi.mode = MbPredictionMode::SplitMv;
    let s = vp8_find_near_mvs(&split, &intra, &split, last, &[0; 4]);
    assert_eq!(s.nearest, mv(6, 6));
    assert_eq!(s.cnt, [0, 3, 0, 3]);
}

#[test]
fn candidates_follow_the_sign_bias() {
    let golden: MvReferenceFrame = MvReferenceFrame::Golden;
    let above: ModeInfo = moved(MvReferenceFrame::Last, mv(4, -6));
    let none: ModeInfo = ModeInfo::default();
    let (r, bias): (BiasedMvs, i32) =
        vp8_find_near_mvs_bias(&above, &none, &none, &MIDDLE, golden, &[0, 0, 1, 0]);
    assert_eq!(bias, 1);
    assert_eq!(r.nearest, [mv(4, -6), mv(-4, 6)]);
    assert_eq!(r.best_mv, [mv(4, -6), mv(-4, 6)]);
    assert_eq!(r.nearby, [mv(0, 0), mv(0, 0)]);
    assert_eq!(r.cnt, [0, 2, 0, 0]);
}

#[test]
fn counts_select_the_mode_probabilities() {
    assert_eq!(vp8_mv_ref_probs(&[0, 0, 0, 0]), [7, 1, 1, 143]);
    assert_eq!(vp8_mv_ref_probs(&[5, 4, 2, 1]), [234, 134, 57, 107]);
}

#[test]
fn neighbouring_vectors_have_contexts() {
    assert_eq!(vp8_mv_cont(&mv(1, 1), &mv(2, 2)), 0);
    assert_eq!(vp8_mv_cont(&mv(0, 0), &mv(2, 2)), 1);
    assert_eq!(vp8_mv_cont(&mv(1, 1), &mv(0, 0)), 2);
    assert_eq!(vp8_mv_cont(&mv(3, 1), &mv(3, 1)), 3);
    assert_eq!(vp8_mv_cont(&mv(0, 0), &mv(0, 0)), 4);
}

#[test]
fn bits_are_read_with_probabilities() {
    let nothing: [u8; 0] = [];
    let data: [u8; 4] = [0x9a, 0x3c, 0x51, 0xe7];
    let mut br: BoolDecoder<'_> = BoolDecoder::new(&nothing);
    assert_eq!((br.buffer.len(), br.pos, br.value, br.count, br.range), (0, 0, 0, -8, 255));
    assert_eq!(vp8dx_start_decode(&mut br, Some(&data), 4), 0);
    assert_eq!(vp8dx_decode_bool(&mut br, 128), 1);
    assert_eq!(vp8dx_decode_bool(&mut br, 128), 0);
    assert_eq!(vp8dx_decode_bool(&mut br, 1), 1);
    assert_eq!(vp8dx_decode_bool(&mut br, 255), 0);
    assert!((128..=255).contains(&br.range) || br.range == 127);
    assert_eq!(vp8dx_bool_error(&br), 0);
    for _ in 0..20 {
        let z: i32 = vp8_decode_value(&mut br, 7);
        assert!((0..128).contains(&z));
    }
    assert_eq!(vp8dx_bool_error(&br), 1);
    assert_eq!(vp8dx_start_decode(&mut br, None, 3), 1);
    assert_eq!(vp8dx_bool_error(&br), 1);
    assert_eq!(vp8dx_start_decode(&mut br, None, 0), 0);
}

#[test]
fn numbers_are_read_high_bits_first() {
    let nothing: [u8; 0] = [];
    let data: [u8; 6] = [0x9a, 0x3c, 0x51, 0xe7, 0x10, 0x0f];
    for (a, b) in [(0i32, 5i32), (3, 4), (7, 0), (12, 19)] {
        let mut one: BoolDecoder<'_> = BoolDecoder::new(&nothing);
        let mut two: BoolDecoder<'_> = BoolDecoder::new(&nothing);
        vp8dx_start_decode(&mut one, Some(&data), 6);
        vp8dx_start_decode(&mut two, Some(&data), 6);
        let whole: i32 = vp8_decode_value(&mut one, a + b);
        let high: i32 = vp8_decode_value(&mut two, a);
        let low: i32 = vp8_decode_value(&mut two, b);
        assert_eq!(whole, (high << b) | low);
        assert_eq!((one.pos, one.value), (two.pos, two.value));
        assert_eq!((one.count, one.range), (two.count, two.range));
    }
}

#[test]
fn the_interval_is_doubled_as_often_as_needed() {
    let nothing: [u8; 0] = [];
    let data: [u8; 8] = [0x9a, 0x3c, 0x51, 0xe7, 0x10, 0x0f, 0xfe, 0x33];
    let mut br: BoolDecoder<'_> = BoolDecoder::new(&nothing);
    vp8dx_start_decode(&mut br, Some(&data), 8);
    for probability in [128i32, 1, 255, 0, 17, 200, 90, 3, 250, 128] {
        let split: u32 = 1 + (((br.range - 1) * probability as u32) >> 8);
        let before: u32 = br.range;
        let bit: i32 = vp8dx_decode_bool(&mut br, probability);
        let mut want: u32 = if bit == 0 { split } else { before - split };
        while want < 128 {
            want *= 2;
        }
        assert_eq!(br.range, want);
    }
}

#[test]
fn ends_add_up() {
    let nothing: [u8; 0] = [];
    let mut x: u32 = 9;
    let data: Vec<u8> = (0..4000)
        .map(|_| {
            x = x.wrapping_mul(1664525).wrapping_add(1013904223);
            (x >> 24) as u8
        })
        .collect();
    let mut br: BoolDecoder<'_> = BoolDecoder::new(&nothing);
    vp8dx_start_decode(&mut br, Some(&data), 4000);
    let mut p: Box<Vp8dComp> = create_decompressor(&CONFIG);
    p.common.fc.coef_probs = DEFAULT_COEF_PROBS;
    let mut m: ModeInfo = ModeInfo::default();
    for k in 0..20 {
        let mut above: EntropyContextPlanes = EntropyContextPlanes { ctx: [0; 9] };
        let mut left: EntropyContextPlanes = EntropyContextPlanes { ctx: [1; 9] };
        let mut q: [i16; 400] = [0; 400];
        let mut eobs: [i8; 25] = [0; 25];
        m.mbmi.is_4x4 = k % 2 == 1;
        let total: i32 = vp8_decode_mb_tokens(
            &mut above,
            &mut left,
            &p.common.fc,
            &mut q,
            &mut eobs,
            &m,
            &mut br,
        );
        let sum: i32 = eobs.iter().map(|e| *e as i32).sum();
        assert_eq!(total, if m.mbmi.is_4x4 { sum } else { sum - 16 });
        if total == 0 {
            assert!(q.iter().all(|v| *v == 0));
        }
    }
}

#[test]
fn contexts_are_cleared_but_for_the_second_order() {
    let mut m: ModeInfo = ModeInfo::default();
    let mut above: EntropyContextPlanes = EntropyContextPlanes { ctx: [1; 9] };
    let mut left: EntropyContextPlanes = EntropyContextPlanes { ctx: [1; 9] };
    m.mbmi.is_4x4 = true;
    vp8_reset_mb_tokens_context(&mut above, &mut left, &m);
    assert_eq!(above.ctx, [0, 0, 0, 0, 0, 0, 0, 0, 1]);
    assert_eq!(left.ctx, [0, 0, 0, 0, 0, 0, 0, 0, 1]);
    m.mbmi.is_4x4 = false;
    vp8_reset_mb_tokens_context(&mut above, &mut left, &m);
    assert_eq!(above.ctx, [0; 9]);
    assert_eq!(left.ctx, [0; 9]);
}

#[test]
fn macroblocks_cover_the_picture() {
    let mut p: Box<Vp8dComp> = create_decompressor(&CONFIG);
    let c: &mut Vp8Common = &mut p.common;
    assert_eq!(vp8_alloc_frame_buffers(c, 17, 48), 0);
    assert_eq!((c.mb_cols, c.mb_rows, c.mbs), (2, 3, 6));
    assert_eq!(c.mode_info_stride, 3);
    assert_eq!((c.yv12_fb[0].y_width, c.yv12_fb[3].y_height), (32, 48));
    assert_eq!((c.new_fb_idx, c.lst_fb_idx, c.gld_fb_idx, c.alt_fb_idx), (0, 1, 2, 3));
    assert_eq!(c.fb_idx_ref_cnt, [1, 1, 1, 1]);
}

#[test]
fn buffers_are_given_up_once() {
    let mut p: Box<Vp8dComp> = create_decompressor(&CONFIG);
    let c: &mut Vp8Common = &mut p.common;
    vp8_alloc_frame_buffers(c, 17, 48);
    assert_eq!((c.temp_scale_frame.y_width, c.temp_scale_frame.y_height), (32, 16));
    c.frame_to_show_idx = 2;
    for _ in 0..2 {
        vp8_remove_common(c);
        assert_eq!(c.fb_idx_ref_cnt, [0, 0, 0, 0]);
        for b in c.yv12_fb.iter().chain([&c.temp_scale_frame]) {
            assert_eq!((b.y_width, b.y_stride, b.uv_stride, b.border), (0, 0, 0, 0));
            assert_eq!((b.planes.y.rows(), b.planes.u.rows(), b.planes.v.rows()), (0, 0, 0));
        }
        assert_eq!((c.mip.rows(), c.above_context.len()), (0, 0));
        assert_eq!(c.frame_to_show_idx, -1);
        assert_eq!((c.mb_rows, c.mb_cols), (3, 2));
    }
}

#[test]
fn buffers_are_counted() {
    let mut p: Box<Vp8dComp> = create_decompressor(&CONFIG);
    let c: &mut Vp8Common = &mut p.common;
    vp8_alloc_frame_buffers(c, 16, 16);
    release_fb(&mut c.fb_idx_ref_cnt, 0);
    assert_eq!(c.fb_idx_ref_cnt, [0, 1, 1, 1]);
    c.new_fb_idx = get_free_fb(c);
    assert_eq!(c.new_fb_idx, 0);
    c.copy_buffer_to_arf = 2;
    c.copy_buffer_to_gf = 1;
    c.refresh_golden_frame = 0;
    c.refresh_alt_ref_frame = 0;
    c.refresh_last_frame = 1;
    assert_eq!(swap_frame_buffers(c), 0);
    assert_eq!((c.lst_fb_idx, c.gld_fb_idx, c.alt_fb_idx), (0, 1, 2));
    assert_eq!(c.fb_idx_ref_cnt, [1, 1, 1, 0]);
    c.new_fb_idx = get_free_fb(c);
    assert_eq!(c.new_fb_idx, 3);
    c.copy_buffer_to_gf = 3;
    assert_eq!(swap_frame_buffers(c), -1);
    // A reference frame whose buffer is not counted is lost when the buffer is used again.
    c.fb_idx_ref_cnt = [0, 1, 1, 1];
    (c.lst_fb_idx, c.gld_fb_idx, c.alt_fb_idx) = (1, 2, 0);
    c.new_fb_idx = get_free_fb(c);
    assert_eq!(c.new_fb_idx, 0);
    (c.copy_buffer_to_arf, c.copy_buffer_to_gf) = (1, 0);
    c.refresh_last_frame = 0;
    assert_eq!(swap_frame_buffers(c), 0);
    assert_eq!((c.lst_fb_idx, c.gld_fb_idx, c.alt_fb_idx), (1, 2, 1));
    assert_eq!(c.fb_idx_ref_cnt, [-1, 2, 1, 1]);
    assert_eq!(c.frame_to_show_idx, 0);
    let (mut counts, mut i): ([i32; 4], i32) = ([1, 1, 1, 0], 2);
    ref_cnt_fb(&mut counts, &mut i, 0);
    assert_eq!((counts, i), ([2, 1, 0, 0], 0));
}

fn no_fragments() -> FragmentData {
    FragmentData {
        enabled: 0,
        count: 0,
        data: [
            Vec::new(),
            Vec::new(),
            Vec::new(),
            Vec::new(),
            Vec::new(),
            Vec::new(),
            Vec::new(),
            Vec::new(),
            Vec::new(),
        ],
    }
}

#[test]
fn partitions_tile_the_data() {
    let mut data: Vec<u8> = vec![9; 20];
    data.extend_from_slice(&[2, 0, 0]);
    data.extend_from_slice(&[10, 11, 12, 13, 14]);
    let mut fragments: FragmentData = no_fragments();
    fragments.count = 1;
    fragments.data[0] = data;
    let parts: Vec<&[u8]> = split_partitions(&fragments, 20, 2, false).unwrap();
    assert_eq!(parts[1], &[10, 11]);
    assert_eq!(parts[2], &[12, 13, 14]);
    assert!(split_partitions(&fragments, 26, 2, false).is_none());
}

#[test]
fn modes_are_found_by_row_and_column() {
    let mut p: Box<Vp8dComp> = create_decompressor(&CONFIG);
    let c: &mut Vp8Common = &mut p.common;
    vp8_alloc_frame_buffers(c, 32, 32);
    c.mi_mut(1, 0).mbmi.segment_id = 1;
    c.mi_mut(0, 1).mbmi.segment_id = 2;
    c.mi_mut(0, 0).mbmi.segment_id = 3;
    assert_eq!(c.mi(1, 1).mbmi.segment_id, 0);
    assert_eq!(c.mi_left(1, 1).mbmi.segment_id, 1);
    assert_eq!(c.mi_above(1, 1).mbmi.segment_id, 2);
    assert_eq!(c.mi_above_left(1, 1).mbmi.segment_id, 3);
    let row: Vec<u8> = c.mi_row(0).iter().map(|m| m.mbmi.segment_id).collect();
    assert_eq!(row, vec![3, 2]);
    c.mi_row_mut(1)[1].mbmi.segment_id = 1;
    assert_eq!(c.mi_row_mut(1).len(), 2);
    assert_eq!(c.mi(1, 1).mbmi.segment_id, 1);
    assert_eq!(c.mi(1, 0).mbmi.segment_id, 1);
    assert_eq!(c.mi(0, 1).mbmi.segment_id, 2);
}

#[test]
fn blocks_lie_in_rows_of_any_stride() {
    let mut p: Box<Vp8dComp> = create_decompressor(&CONFIG);
    let strides: [(i32, i32); 5] =
        [(96, 48), (0, 0), (-96, -48), (178956969, 536870910), (-178956970, -536870912)];
    for (y, uv) in strides {
        let at: PlaneRef =
            PlaneRef { y_buffer: 0, u_buffer: 0, v_buffer: 0, y_stride: y, uv_stride: uv };
        vp8_build_block_doffsets(&mut p.mb, &at);
        for k in 0..16i32 {
            assert_eq!(p.mb.block[k as usize].offset, (k / 4) * 4 * y + (k % 4) * 4);
        }
        for k in 0..8i32 {
            assert_eq!(p.mb.block[16 + k as usize].offset, (k % 4 / 2) * 4 * uv + (k % 2) * 4);
        }
    }
}

#[test]
fn a_cut_key_frame_sets_what_its_header_says() {
    let mut p: Box<Vp8dComp> = create_decompressor(&CONFIG);
    let mut fragments: FragmentData = no_fragments();
    fragments.count = 1;
    fragments.data[0] = vec![0xb6, 0, 0, 0x9d, 1, 0x2a, 0xb0, 0x40, 0x90, 0x80];
    assert_eq!(
        vp8_decode_frame(&mut p, &fragments),
        Err(VpxCodecErr::VPX_CODEC_CORRUPT_FRAME)
    );
    let c: &Vp8Common = &p.common;
    assert_eq!((c.frame_type, c.version, c.show_frame), (FrameType::Key, 3, 1));
    assert_eq!((c.width, c.height, c.horiz_scale, c.vert_scale), (176, 144, 1, 2));
    assert_eq!((c.no_lpf, c.use_bilinear_mc_filter, c.full_pixel), (1, 1, 1));
    assert_eq!(p.decoded_key_frame, 0);
}

#[test]
fn modes_and_their_neighbours_in_a_row_of_cells() {
    let mut cells: Vec<ModeInfo> = vec![ModeInfo::default(); 9];
    for (k, m) in cells.iter_mut().enumerate() {
        m.mbmi.segment_id = k as u8;
    }
    let (cur, above, left, aboveleft) = Vp8Common::mi_split_neighbors(&mut cells, 3, 1, 1);
    assert_eq!(cur.mbmi.segment_id, 8);
    assert_eq!(above.mbmi.segment_id, 5);
    assert_eq!(left.mbmi.segment_id, 7);
    assert_eq!(aboveleft.mbmi.segment_id, 4);
    cur.mbmi.segment_id = 100;
    assert_eq!(cells[8].mbmi.segment_id, 100);
}

#[test]
fn decoders_come_and_go() {
    let mut b: FrameBuffers = FrameBuffers { pbi: None };
    assert!(b.pbi_ptr().is_none());
    assert_ne!(vp8_remove_decoder_instances(&mut b), 0);
    assert_eq!(vp8_create_decoder_instances(&mut b, &CONFIG), 0);
    b.pbi_ptr().unwrap().ready_for_new_data = 7;
    assert_eq!(b.pbi_ptr().unwrap().ready_for_new_data, 7);
    assert_eq!(vp8_remove_decoder_instances(&mut b), 0);
    assert!(b.pbi.is_none());
}

#[test]
fn copied_frames_are_the_same() {
    let mut a: Yv12BufferConfig = Yv12BufferConfig::empty();
    let mut b: Yv12BufferConfig = Yv12BufferConfig::empty();
    vp8_yv12_alloc_frame_buffer(&mut a, 16, 32, 32);
    vp8_yv12_alloc_frame_buffer(&mut b, 16, 32, 32);
    for r in 0..32usize {
        for c in 0..16usize {
            a.planes.y.set(32 + r, 32 + c, (8 * r + c) as u8);
        }
    }
    a.planes.v.set(16, 16, 77);
    vp8_yv12_copy_frame(&a, &mut b);
    for r in 0..32usize {
        for c in 0..16usize {
            assert_eq!(b.planes.y.get(32 + r, 32 + c), (8 * r + c) as u8);
        }
    }
    assert_eq!(b.planes.v.get(16, 16), 77);
    assert_eq!(b.planes.u.get(16, 16), 0);
}

/// Planes for two by three macroblocks, with some unevenness.
fn uneven() -> FramePlanes {
    let mut b: Yv12BufferConfig = Yv12BufferConfig::empty();
    vp8_yv12_alloc_frame_buffer(&mut b, 32, 48, 32);
    for r in 0..112usize {
        for c in 0..96usize {
            b.planes.y.set(r, c, (100 + 8 * ((r / 4 + c / 4) % 3)) as u8);
        }
    }
    for r in 0..56usize {
        for c in 0..48usize {
            b.planes.u.set(r, c, (100 + 8 * ((r / 4 + c / 4) % 3)) as u8);
            b.planes.v.set(r, c, (100 + 8 * ((r / 4 + c / 4) % 2)) as u8);
        }
    }
    b.planes
}

/// The first line that differs, and the one after the last.
fn changed_lines(p: &Plane, q: &Plane) -> (usize, usize) {
    let differs = |r: &usize| (0..p.stride()).any(|c| p.get(*r, c) != q.get(*r, c));
    let lines: Vec<usize> = (0..p.rows()).filter(differs).collect();
    (lines[0], lines[lines.len() - 1] + 1)
}

#[test]
fn filtering_a_row_changes_its_lines_and_three_above() {
    let mut p: Box<Vp8dComp> = create_decompressor(&CONFIG);
    vp8_alloc_frame_buffers(&mut p.common, 32, 48);
    vp8_loop_filter_frame_init(&mut p.common, &p.mb, 40);
    let before: FramePlanes = uneven();
    let mut d: FramePlanes = before.copy();
    let c: &Vp8Common = &p.common;
    vp8_loop_filter_row_normal(&c.lf_info, FrameType::Key, &c.mip, 1, 3, 2, &mut d);
    assert_eq!(changed_lines(&before.y, &d.y), (45, 64));
    assert_eq!(changed_lines(&before.u, &d.u), (21, 32));
    assert_eq!(changed_lines(&before.v, &d.v), (21, 32));
}

#[test]
fn a_macroblock_changes_the_lines_of_its_row() {
    let mut p: Box<Vp8dComp> = create_decompressor(&CONFIG);
    vp8_alloc_frame_buffers(&mut p.common, 32, 48);
    let before: FramePlanes = uneven();
    let mut d: FramePlanes = before.copy();
    let refs: RefFrames<'_> = RefFrames { last: &before, golden: &before, altref: &before };
    let nothing: [u8; 0] = [];
    let data: Vec<u8> = (0..600u32).map(|k| (k * k * 37 + k * 101 + 11) as u8).collect();
    let mut br: BoolDecoder<'_> = BoolDecoder::new(&nothing);
    vp8dx_start_decode(&mut br, Some(data.as_slice()), data.len());
    let mut mi: ModeInfo = ModeInfo::default();
    let mut above: EntropyContextPlanes = EntropyContextPlanes::default();
    let mut left: EntropyContextPlanes = EntropyContextPlanes::default();
    p.common.fc.coef_probs = DEFAULT_COEF_PROBS;
    let c: &Vp8Common = &p.common;
    decode_macroblock(
        &c.fc,
        &mut above,
        &mut left,
        &c.y1_dequant,
        &c.y2_dequant,
        &c.uv_dequant,
        60,
        &mut p.mb,
        &mut mi,
        &mut br,
        &refs,
        &mut d,
        1,
        1,
        3,
        2,
    );
    let (y0, y1): (usize, usize) = changed_lines(&before.y, &d.y);
    assert!(48 <= y0 && y1 <= 64);
    let (u0, u1): (usize, usize) = changed_lines(&before.u, &d.u);
    assert!(24 <= u0 && u1 <= 32);
    let (v0, v1): (usize, usize) = changed_lines(&before.v, &d.v);
    assert!(24 <= v0 && v1 <= 32);
}
