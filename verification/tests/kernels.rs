//! Transforms, predictions and filters on small blocks.

use vp8_decoder_rs::dequantize::{scale, vp8_dequant_idct_add_c, vp8_dequantize_b_c};
use vp8_decoder_rs::extend::{
    yv12_extend_frame_bottom_c, yv12_extend_frame_left_right_c, yv12_extend_frame_top_c,
};
use vp8_decoder_rs::filter::{
    vp8_bilinear_predict16x16_c, vp8_bilinear_predict4x4_c, vp8_bilinear_predict8x4_c,
    vp8_bilinear_predict8x8_c, vp8_sixtap_predict16x16_c, vp8_sixtap_predict4x4_c,
    vp8_sixtap_predict8x4_c, vp8_sixtap_predict8x8_c,
};
use vp8_decoder_rs::grid::{Grid, Plane};
use vp8_decoder_rs::idctllm::{
    pixels_at, vp8_dc_only_idct_add_c, vp8_short_idct4x4llm_c, vp8_short_inv_walsh4x4_1_c,
    vp8_short_inv_walsh4x4_c, Pixels,
};
use vp8_decoder_rs::intrapred::{predict4, predict_square, Shape};
use vp8_decoder_rs::intrapred4x4::{
    vpx_d117_predictor_4x4_c, vpx_d135_predictor_4x4_c, vpx_d153_predictor_4x4_c,
    vpx_d207_predictor_4x4_c, vpx_d45_predictor_4x4_c, vpx_d45e_predictor_4x4_c,
    vpx_d63_predictor_4x4_c, vpx_d63e_predictor_4x4_c, vpx_he_predictor_4x4_c,
    vpx_ve_predictor_4x4_c,
};
use vp8_decoder_rs::loopfilter_filters::{
    vp8_loop_filter_bh_c, vp8_loop_filter_bv_c, vp8_loop_filter_mbh_c, vp8_loop_filter_mbv_c,
    vp8_loop_filter_simple_horizontal_edge_c, vp8_loop_filter_simple_vertical_edge_c,
    LoopFilterInfo,
};
use vp8_decoder_rs::quant_common::{
    vp8_ac2quant, vp8_ac_uv_quant, vp8_ac_yquant, vp8_dc2quant, vp8_dc_quant, vp8_dc_uv_quant,
};
use vp8_decoder_rs::swapyv12buffer::vp8_swap_yv12_buffer;
use vp8_decoder_rs::types::{BPredictionMode, FramePlanes, Yv12BufferConfig};
use vp8_decoder_rs::yv12config::vp8_yv12_alloc_frame_buffer;

const COEFFS: [i16; 16] = [120, -60, 30, 8, -45, 20, 0, -3, 16, 0, -7, 0, 5, 0, 0, 1];

fn block(p: &Plane, r0: usize, c0: usize, n: usize) -> Vec<u8> {
    let mut v: Vec<u8> = Vec::new();
    for r in 0..n {
        for c in 0..n {
            v.push(p.get(r0 + r, c0 + c));
        }
    }
    v
}

#[test]
fn inverse_transform_of_a_block() {
    let mut p: Plane = Grid::filled(6, 7, 100u8);
    let pred: Pixels = pixels_at(&p, 1, 2);
    vp8_short_idct4x4llm_c(&COEFFS, &pred, &mut p, 1, 2);
    assert_eq!(
        block(&p, 1, 2, 4),
        vec![107, 104, 110, 118, 106, 100, 109, 122, 111, 106, 119, 132, 114, 114, 129, 140]
    );
    assert_eq!(p.get(0, 2), 100);
    assert_eq!(p.get(1, 6), 100);
    let mut bright: Plane = Grid::filled(4, 4, 250u8);
    let pred: Pixels = pixels_at(&bright, 0, 0);
    vp8_short_idct4x4llm_c(&COEFFS, &pred, &mut bright, 0, 0);
    assert_eq!(bright.get(0, 0), 255);
    assert_eq!(bright.get(0, 1), 254);
    assert_eq!(bright.get(1, 1), 250);
}

#[test]
fn a_lone_first_coefficient_has_a_short_form() {
    for dc in [-300i16, -5, -4, 0, 3, 4, 80, 2000] {
        let mut a: Plane = Grid::filled(4, 4, 90u8);
        let mut b: Plane = Grid::filled(4, 4, 90u8);
        let mut input: [i16; 16] = [0; 16];
        input[0] = dc;
        let pred: Pixels = pixels_at(&a, 0, 0);
        vp8_short_idct4x4llm_c(&input, &pred, &mut a, 0, 0);
        vp8_dc_only_idct_add_c(dc, &pred, &mut b, 0, 0);
        assert_eq!(block(&a, 0, 0, 4), block(&b, 0, 0, 4));
    }
    let mut p: Plane = Grid::filled(4, 4, 90u8);
    vp8_dc_only_idct_add_c(80, &[[90; 4]; 4], &mut p, 0, 0);
    assert_eq!(p.get(3, 3), 100);
}

#[test]
fn predictions_come_from_anywhere() {
    let pred: Pixels =
        [[0, 1, 2, 3], [100, 101, 102, 103], [200, 201, 202, 203], [252, 253, 254, 255]];
    for dc in [-40i16, -5, -4, 0, 3, 4, 21] {
        let rise: i32 = (dc as i32 + 4).div_euclid(8);
        let mut input: [i16; 16] = [0; 16];
        input[0] = dc;
        let mut a: Plane = Grid::filled(6, 6, 77u8);
        let mut b: Plane = Grid::filled(6, 6, 77u8);
        vp8_short_idct4x4llm_c(&input, &pred, &mut a, 1, 2);
        vp8_dc_only_idct_add_c(dc, &pred, &mut b, 1, 2);
        for r in 0..4usize {
            for c in 0..4usize {
                let want: u8 = (pred[r][c] as i32 + rise).clamp(0, 255) as u8;
                assert_eq!(a.get(1 + r, 2 + c), want);
                assert_eq!(b.get(1 + r, 2 + c), want);
            }
        }
        assert_eq!(a.get(0, 2), 77);
        assert_eq!(b.get(1, 1), 77);
    }
    let mut p: Plane = Grid::filled(4, 4, 77u8);
    vp8_dc_only_idct_add_c(0, &pred, &mut p, 0, 0);
    assert_eq!(pixels_at(&p, 0, 0), pred);
}

#[test]
fn second_order_transform() {
    let mut q: [i16; 400] = [7; 400];
    vp8_short_inv_walsh4x4_c(&COEFFS, &mut q);
    let want: [i16; 16] = [11, 3, 15, 19, 7, -3, 8, 16, 15, 3, 26, 32, 16, 8, 30, 34];
    for k in 0..16 {
        assert_eq!(q[16 * k], want[k]);
        assert_eq!(q[16 * k + 1], 7);
    }
    vp8_short_inv_walsh4x4_1_c(120, &mut q);
    for k in 0..16 {
        assert_eq!(q[16 * k], 15);
    }
}

#[test]
fn coefficients_are_scaled() {
    assert_eq!(scale(-3, 40), -120);
    let mut q: [i16; 400] = [0; 400];
    q[16] = 5;
    q[17] = -2;
    let mut steps: [i16; 16] = [10; 16];
    steps[0] = 16;
    let d: [i16; 16] = vp8_dequantize_b_c(&q, 16, &steps);
    assert_eq!(d[0], 80);
    assert_eq!(d[1], -20);
    assert_eq!(d[2], 0);
    q[17] = 0;
    let mut p: Plane = Grid::filled(4, 4, 50u8);
    vp8_dequant_idct_add_c(&mut q, 16, &steps, &mut p, 0, 0);
    assert_eq!(block(&p, 0, 0, 4), vec![60u8; 16]);
    assert_eq!(q[16], 0);
}

fn source() -> Plane {
    let mut p: Plane = Grid::filled(24, 24, 0u8);
    for r in 0..24usize {
        for c in 0..24usize {
            p.set(r, c, ((r * 37 + c * c * 11 + r * c * 5) % 256) as u8);
        }
    }
    p
}

fn sum(p: &Plane, h: usize, w: usize) -> u32 {
    let mut s: u32 = 0;
    for r in 0..h {
        for c in 0..w {
            s += p.get(r, c) as u32;
        }
    }
    s
}

#[test]
fn six_tap_interpolation() {
    let s: Plane = source();
    let mut d: Plane = Grid::filled(16, 16, 0u8);
    vp8_sixtap_predict4x4_c(&s, 4, 5, 2, 6, &mut d, 0, 0);
    assert_eq!(
        block(&d, 0, 0, 4),
        vec![78, 207, 91, 87, 107, 104, 196, 85, 186, 45, 100, 226, 69, 133, 58, 76]
    );
    vp8_sixtap_predict8x8_c(&s, 4, 5, 4, 3, &mut d, 0, 0);
    assert_eq!(sum(&d, 8, 8), 7687);
    vp8_sixtap_predict8x4_c(&s, 4, 5, 7, 1, &mut d, 0, 0);
    assert_eq!(sum(&d, 4, 8), 4373);
    vp8_sixtap_predict16x16_c(&s, 3, 3, 5, 5, &mut d, 0, 0);
    assert_eq!(sum(&d, 16, 16), 32490);
    vp8_sixtap_predict4x4_c(&s, 4, 5, 0, 0, &mut d, 0, 0);
    assert_eq!(block(&d, 0, 0, 4), block(&s, 4, 5, 4));
}

#[test]
fn two_tap_interpolation() {
    let s: Plane = source();
    let mut d: Plane = Grid::filled(16, 16, 0u8);
    vp8_bilinear_predict4x4_c(&s, 4, 5, 3, 6, &mut d, 0, 0);
    assert_eq!(
        block(&d, 0, 0, 4),
        vec![112, 169, 112, 93, 104, 118, 162, 108, 144, 75, 116, 186, 87, 120, 78, 73]
    );
    vp8_bilinear_predict8x8_c(&s, 4, 5, 4, 3, &mut d, 0, 0);
    assert_eq!(sum(&d, 8, 8), 7764);
    vp8_bilinear_predict8x4_c(&s, 4, 5, 7, 1, &mut d, 0, 0);
    assert_eq!(sum(&d, 4, 8), 4345);
    vp8_bilinear_predict16x16_c(&s, 3, 3, 5, 5, &mut d, 0, 0);
    assert_eq!(sum(&d, 16, 16), 32548);
}

fn edges() -> ([u8; 17], [u8; 16]) {
    let mut above: [u8; 17] = [0; 17];
    above[..9].copy_from_slice(&[10, 20, 35, 55, 90, 70, 60, 44, 33]);
    let mut left: [u8; 16] = [0; 16];
    left[..4].copy_from_slice(&[15, 28, 44, 70]);
    (above, left)
}

#[test]
fn four_by_four_predictions() {
    let (a, l): ([u8; 17], [u8; 16]) = edges();
    let mut p: Plane = Grid::filled(4, 4, 0u8);
    vpx_he_predictor_4x4_c(&mut p, 0, 0, &a, &l);
    assert_eq!(block(&p, 0, 0, 4), vec![17, 17, 17, 17, 29, 29, 29, 29, 47, 47, 47, 47, 64, 64, 64, 64]);
    vpx_ve_predictor_4x4_c(&mut p, 0, 0, &a, &l);
    assert_eq!(block(&p, 0, 0, 4), vec![21, 36, 59, 76, 21, 36, 59, 76, 21, 36, 59, 76, 21, 36, 59, 76]);
    vpx_d207_predictor_4x4_c(&mut p, 0, 0, &a, &l);
    assert_eq!(block(&p, 0, 0, 4), vec![22, 29, 36, 47, 36, 47, 57, 64, 57, 64, 70, 70, 70, 70, 70, 70]);
    vpx_d63_predictor_4x4_c(&mut p, 0, 0, &a);
    assert_eq!(block(&p, 0, 0, 4), vec![28, 45, 73, 80, 36, 59, 76, 73, 45, 73, 80, 65, 59, 76, 73, 59]);
    vpx_d63e_predictor_4x4_c(&mut p, 0, 0, &a, &l);
    assert_eq!(block(&p, 0, 0, 4), vec![28, 45, 73, 80, 36, 59, 76, 73, 45, 73, 80, 59, 59, 76, 73, 45]);
    vpx_d45_predictor_4x4_c(&mut p, 0, 0, &a);
    assert_eq!(block(&p, 0, 0, 4), vec![36, 59, 76, 73, 59, 76, 73, 59, 76, 73, 59, 45, 73, 59, 45, 33]);
    vpx_d45e_predictor_4x4_c(&mut p, 0, 0, &a, &l);
    assert_eq!(block(&p, 0, 0, 4), vec![36, 59, 76, 73, 59, 76, 73, 59, 76, 73, 59, 45, 73, 59, 45, 36]);
    vpx_d117_predictor_4x4_c(&mut p, 0, 0, &a, &l);
    assert_eq!(block(&p, 0, 0, 4), vec![15, 28, 45, 73, 14, 21, 36, 59, 17, 15, 28, 45, 29, 14, 21, 36]);
    vpx_d135_predictor_4x4_c(&mut p, 0, 0, &a, &l);
    assert_eq!(block(&p, 0, 0, 4), vec![14, 21, 36, 59, 17, 14, 21, 36, 29, 17, 14, 21, 47, 29, 17, 14]);
    vpx_d153_predictor_4x4_c(&mut p, 0, 0, &a, &l);
    assert_eq!(block(&p, 0, 0, 4), vec![13, 14, 21, 36, 22, 17, 13, 14, 36, 29, 22, 17, 57, 47, 36, 29]);
    predict4(&mut p, 0, 0, BPredictionMode::TmPred, &a, &l);
    assert_eq!(block(&p, 0, 0, 4), vec![25, 40, 60, 95, 38, 53, 73, 108, 54, 69, 89, 124, 80, 95, 115, 150]);
    predict4(&mut p, 0, 0, BPredictionMode::DcPred, &a, &l);
    assert_eq!(block(&p, 0, 0, 4), vec![45u8; 16]);
}

#[test]
fn square_predictions() {
    let a: [u8; 17] = [100, 1, 2, 3, 4, 5, 6, 7, 8, 9, 10, 11, 12, 13, 14, 15, 16];
    let l: [u8; 16] = [200, 190, 180, 170, 160, 150, 140, 130, 120, 110, 100, 90, 80, 70, 60, 50];
    let mut p: Plane = Grid::filled(16, 16, 0u8);
    predict_square(&mut p, 0, 0, 8, Shape::V, &a, &l);
    assert_eq!((p.get(0, 0), p.get(7, 7), p.get(8, 0)), (1, 8, 0));
    predict_square(&mut p, 0, 0, 16, Shape::H, &a, &l);
    assert_eq!((p.get(0, 9), p.get(15, 3)), (200, 50));
    predict_square(&mut p, 0, 0, 16, Shape::Tm, &a, &l);
    assert_eq!((p.get(0, 0), p.get(15, 0), p.get(0, 15)), (101, 0, 116));
    predict_square(&mut p, 0, 0, 16, Shape::Dc, &a, &l);
    // The sums are 136 and 2000.
    assert_eq!(p.get(5, 5), 67);
    predict_square(&mut p, 0, 0, 16, Shape::DcTop, &a, &l);
    assert_eq!(p.get(5, 5), 9);
    predict_square(&mut p, 0, 0, 16, Shape::DcLeft, &a, &l);
    assert_eq!(p.get(5, 5), 125);
    predict_square(&mut p, 0, 0, 16, Shape::Dc128, &a, &l);
    assert_eq!(p.get(5, 5), 128);
}

const LFI: LoopFilterInfo = LoopFilterInfo { mblim: 60, blim: 60, lim: 12, hev_thr: 3 };

/// Planes that are alike along one direction: `t` across the edge at 8.
fn striped(t: &[u8; 8], across_rows: bool) -> FramePlanes {
    let value = |k: usize| if k < 4 { t[0] } else if k < 12 { t[k - 4] } else { t[7] };
    let plane = |n: usize| {
        let mut p: Plane = Grid::filled(n, n, 0u8);
        for r in 0..n {
            for c in 0..n {
                p.set(r, c, value(if across_rows { r } else { c }));
            }
        }
        p
    };
    FramePlanes { y: plane(24), u: plane(24), v: plane(24) }
}

fn across(p: &Plane, across_rows: bool, at: usize) -> Vec<u8> {
    (4..12).map(|k| if across_rows { p.get(k, at) } else { p.get(at, k) }).collect()
}

#[test]
fn edges_between_macroblocks_are_smoothed() {
    for rows in [true, false] {
        let cases: [([u8; 8], [u8; 8]); 3] = [
            (
                [100, 102, 104, 106, 114, 115, 117, 118],
                [100, 103, 106, 109, 111, 113, 116, 118],
            ),
            (
                [100, 101, 110, 104, 116, 111, 110, 110],
                [100, 101, 110, 108, 112, 111, 110, 110],
            ),
            (
                [100, 102, 104, 106, 190, 192, 194, 195],
                [100, 102, 104, 106, 190, 192, 194, 195],
            ),
        ];
        for (t, want) in cases {
            let mut d: FramePlanes = striped(&t, rows);
            if rows {
                vp8_loop_filter_mbh_c(&mut d, 8, 4, 8, 4, &LFI);
            } else {
                vp8_loop_filter_mbv_c(&mut d, 4, 8, 4, 8, &LFI);
            }
            assert_eq!(across(&d.y, rows, 4), want.to_vec());
            assert_eq!(across(&d.y, rows, 19), want.to_vec());
            assert_eq!(across(&d.y, rows, 20), t.to_vec());
            assert_eq!(across(&d.u, rows, 11), want.to_vec());
            assert_eq!(across(&d.v, rows, 12), t.to_vec());
        }
    }
}

#[test]
fn edges_inside_macroblocks_are_smoothed() {
    for rows in [true, false] {
        let cases: [([u8; 8], [u8; 8]); 2] = [
            (
                [100, 102, 104, 106, 114, 115, 117, 118],
                [100, 102, 106, 109, 111, 113, 117, 118],
            ),
            (
                [100, 101, 110, 104, 116, 111, 110, 110],
                [100, 101, 110, 108, 112, 111, 110, 110],
            ),
        ];
        for (t, want) in cases {
            // The first of the inner edges is four pixels inside.
            let mut d: FramePlanes = striped(&t, rows);
            if rows {
                vp8_loop_filter_bh_c(&mut d, 4, 4, 4, 4, &LFI);
            } else {
                vp8_loop_filter_bv_c(&mut d, 4, 4, 4, 4, &LFI);
            }
            assert_eq!(across(&d.y, rows, 4), want.to_vec());
            assert_eq!(across(&d.u, rows, 4), want.to_vec());
            assert_eq!(across(&d.y, rows, 20), t.to_vec());
        }
    }
}

#[test]
fn the_simple_filter_changes_two_pixels() {
    let t: [u8; 8] = [100, 102, 104, 106, 114, 115, 117, 118];
    let mut d: FramePlanes = striped(&t, true);
    vp8_loop_filter_simple_horizontal_edge_c(&mut d.y, 8, 4, 60);
    assert_eq!(across(&d.y, true, 4), vec![100, 102, 104, 108, 112, 115, 117, 118]);
    let mut d: FramePlanes = striped(&t, false);
    vp8_loop_filter_simple_vertical_edge_c(&mut d.y, 4, 8, 60);
    assert_eq!(across(&d.y, false, 4), vec![100, 102, 104, 108, 112, 115, 117, 118]);
    vp8_loop_filter_simple_vertical_edge_c(&mut d.y, 4, 8, 2);
    assert_eq!(across(&d.y, false, 4), vec![100, 102, 104, 108, 112, 115, 117, 118]);
}

#[test]
fn quantizer_steps() {
    assert_eq!(vp8_dc_quant(0, 0), 4);
    assert_eq!(vp8_dc_quant(127, 15), 157);
    assert_eq!(vp8_dc_quant(10, -15), 4);
    assert_eq!(vp8_dc2quant(10, 0), 26);
    assert_eq!(vp8_dc_uv_quant(127, 0), 132);
    assert_eq!(vp8_ac_yquant(127), 284);
    assert_eq!(vp8_ac2quant(0, 0), 8);
    assert_eq!(vp8_ac2quant(127, 0), 440);
    assert_eq!(vp8_ac_uv_quant(50, 2), 56);
}

fn numbered() -> Yv12BufferConfig {
    let mut b: Yv12BufferConfig = Yv12BufferConfig::empty();
    assert_eq!(vp8_yv12_alloc_frame_buffer(&mut b, 16, 16, 32), 0);
    for r in 0..16usize {
        for c in 0..16usize {
            b.planes.y.set(32 + r, 32 + c, (16 * r + c) as u8);
        }
    }
    b
}

#[test]
fn borders_repeat_the_nearest_pixel() {
    let mut b: Yv12BufferConfig = numbered();
    yv12_extend_frame_left_right_c(&mut b.planes, 0, 1, 1);
    yv12_extend_frame_top_c(&mut b.planes, 1, 1);
    yv12_extend_frame_bottom_c(&mut b.planes, 1, 1);
    for r in 0..80usize {
        for c in 0..80usize {
            let (i, j): (usize, usize) = (r.clamp(32, 47) - 32, c.clamp(32, 47) - 32);
            assert_eq!(b.planes.y.get(r, c), (16 * i + j) as u8);
        }
    }
}

#[test]
fn exchanged_buffers_come_back() {
    let mut a: Yv12BufferConfig = numbered();
    let mut b: Yv12BufferConfig = Yv12BufferConfig::empty();
    vp8_yv12_alloc_frame_buffer(&mut b, 16, 16, 32);
    vp8_swap_yv12_buffer(&mut a, &mut b);
    assert_eq!(a.planes.y.get(33, 33), 0);
    assert_eq!(b.planes.y.get(33, 33), 17);
    vp8_swap_yv12_buffer(&mut a, &mut b);
    assert_eq!(a.planes.y.get(33, 33), 17);
}
