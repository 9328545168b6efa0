//! Frames of noise: every byte after the tag is a pseudo-random one, so that modes, vectors,
//! coefficients and filters of all kinds occur.

use vp8_decoder_rs::codec::Decoder;
use vp8_decoder_rs::dboolhuff::{vp8dx_start_decode, BoolDecoder};
use vp8_decoder_rs::grid::Plane;
use vp8_decoder_rs::mbmodes::{read_mb_modes_mv, ModeEnv};
use vp8_decoder_rs::newdecoder::create_decompressor;
use vp8_decoder_rs::types::{
    BModeInfo, FrameType, MbEdges, MbPredictionMode, ModeInfo, Mv, MvReferenceFrame, Vp8dComp,
    Vp8dConfig,
};
use vp8_decoder_rs::vp8_decoder::Vp8Decoder;

struct Noise {
    x: u64,
}

impl Noise {
    fn byte(&mut self) -> u8 {
        self.x = self.x.wrapping_mul(6364136223846793005).wrapping_add(1442695040888963407);
        (self.x >> 56) as u8
    }
}

const FIRST: usize = 700;

const TOKENS: usize = 5000;

/// A frame with `1 << log2` token partitions.
fn frame(seed: u64, key: bool, version: u32, size: (u32, u32), log2: u32) -> Vec<u8> {
    let mut noise: Noise = Noise { x: seed };
    let n: u32 = (if key { 0 } else { 1 }) | (version << 1) | (1 << 4) | ((FIRST as u32) << 5);
    let mut d: Vec<u8> = vec![n as u8, (n >> 8) as u8, (n >> 16) as u8];
    if key {
        d.extend_from_slice(&[0x9d, 0x01, 0x2a]);
        d.extend_from_slice(&[
            size.0 as u8,
            (size.0 >> 8) as u8,
            size.1 as u8,
            (size.1 >> 8) as u8,
        ]);
    }
    for _ in 0..FIRST {
        d.push(noise.byte());
    }
    for _ in 1..(1 << log2) {
        d.extend_from_slice(&[TOKENS as u8, (TOKENS >> 8) as u8, (TOKENS >> 16) as u8]);
    }
    for _ in 0..(1 << log2) * TOKENS {
        d.push(noise.byte());
    }
    d
}

fn hash_plane(mut hash: u64, p: &Plane, border: usize, h: usize, w: usize) -> u64 {
    for r in 0..h {
        for c in 0..w {
            hash = (hash ^ p.get(border + r, border + c) as u64).wrapping_mul(0x100_0000_01b3);
        }
    }
    hash
}

/// Every pixel of the border is the nearest pixel of the frame.
fn check_border(p: &Plane, b: usize, h: usize, w: usize) {
    for r in 0..h + 2 * b {
        for c in 0..w + 2 * b {
            let (i, j): (usize, usize) = (r.clamp(b, b + h - 1), c.clamp(b, b + w - 1));
            assert_eq!(p.get(r, c), p.get(i, j), "row {r}, column {c}");
        }
    }
}

fn decode_all(version: u32, size: (u32, u32), frames: &[(u64, u32, u64)]) {
    let mut d: Vp8Decoder = match Vp8Decoder::new(0) {
        Ok(d) => d,
        Err(e) => panic!("{e:?}"),
    };
    let (w, h): (usize, usize) = (size.0 as usize, size.1 as usize);
    let (cols, rows): (usize, usize) = ((w + 15) / 16, (h + 15) / 16);
    for (k, (seed, log2, want)) in frames.iter().enumerate() {
        d.decode(&frame(*seed, k == 0, version, size, *log2)).unwrap();
        let img = d.get_frame().unwrap();
        check_border(&img.planes.y, 32, 16 * rows, 16 * cols);
        check_border(&img.planes.u, 16, 8 * rows, 8 * cols);
        check_border(&img.planes.v, 16, 8 * rows, 8 * cols);
        let mut hash: u64 = 0xcbf2_9ce4_8422_2325;
        hash = hash_plane(hash, &img.planes.y, 32, h, w);
        hash = hash_plane(hash, &img.planes.u, 16, (h + 1) / 2, (w + 1) / 2);
        hash = hash_plane(hash, &img.planes.v, 16, (h + 1) / 2, (w + 1) / 2);
        assert_eq!(hash, *want, "frame {k}");
    }
}

#[test]
fn noise_with_six_taps() {
    decode_all(
        0,
        (48, 40),
        &[
            (1001, 0, 0x42e5f227ce9bce9f),
            (1003, 2, 0x1bcdc1bacb9248cb),
            (1004, 0, 0x3c06ce6b31110a75),
            (1007, 2, 0x612ddb257d643f95),
            (1009, 1, 0x2f612da3eb9f0cb2),
            (1011, 0, 0x6d79ded021ac1a14),
        ],
    );
}

#[test]
fn noise_with_two_taps() {
    decode_all(
        1,
        (33, 49),
        &[
            (2001, 1, 0x255ef8add6e941e4),
            (2003, 2, 0x200e2e01711e3460),
            (2004, 1, 0x0f37e3e763564184),
            (2005, 0, 0x66b849ebbcb16ffb),
            (2006, 3, 0x715dad7b9a5a1840),
        ],
    );
}

#[test]
fn noise_without_own_filter() {
    decode_all(
        2,
        (40, 32),
        &[
            (3001, 0, 0x46ccb4d23342fdd4),
            (3003, 1, 0xa80d0d30397db11b),
            (3004, 3, 0xd359d656c91a1b2a),
            (3006, 3, 0x3628fda3f997287e),
            (3007, 2, 0x19400f452cda42de),
        ],
    );
}

#[test]
fn noise_with_whole_pixels() {
    decode_all(
        3,
        (48, 48),
        &[
            (4001, 2, 0xe4d2adba2038bcaf),
            (4002, 0, 0xb77db7e754bd6447),
            (4003, 2, 0x652fbf96702fb076),
            (4004, 0, 0x1cff4622f87a55d8),
            (4005, 1, 0x4a0734073a2ce896),
        ],
    );
}

#[test]
fn noise_in_narrow_frames() {
    decode_all(
        3,
        (31, 64),
        &[
            (500001, 0, 0xce1f68425d8d8688),
            (500002, 0, 0xd83cd4ff97a61f42),
            (500003, 2, 0xa41bb5ffa0c8bac5),
            (500006, 0, 0x6f1cdd4f012f7a8e),
            (500008, 2, 0xaa47d785165d525d),
            (500010, 2, 0x85ed941ecf2bfde5),
            (500012, 2, 0xaf0332a5b425da5b),
            (500013, 1, 0xcd6e7dd29c9e3e72),
        ],
    );
}

#[test]
fn noise_in_wide_frames() {
    decode_all(
        0,
        (80, 33),
        &[
            (600001, 0, 0x4323301de0192cb8),
            (600002, 0, 0x977cb940ded8971c),
            (600003, 2, 0x5fe41bace18c30e0),
            (600004, 3, 0x9429119413625e33),
            (600005, 3, 0xbd213b32b4b9932c),
            (600006, 0, 0x8e8dc6a10471900d),
            (600007, 3, 0xa328ba11e13b5718),
            (600008, 1, 0xbcec9b8032ac6ba4),
        ],
    );
}

#[test]
fn noise_in_one_macroblock() {
    decode_all(
        5,
        (16, 16),
        &[
            (700001, 1, 0x602f8c601ab34a25),
            (700002, 2, 0x2001261f73a053ed),
            (700004, 1, 0x62693735835e3336),
            (700005, 3, 0xbd5696b9f6fd3509),
            (700006, 2, 0x04568d28d1bf0787),
            (700007, 2, 0x2f6a7b08332ba5f2),
            (700008, 0, 0x3cae3b5d7fadc316),
            (700009, 1, 0xf5b3cb2da6d91ff2),
        ],
    );
}

#[test]
fn modes_fit_together() {
    let mut noise: Noise = Noise { x: 31 };
    let data: Vec<u8> = (0..20_000).map(|_| noise.byte()).collect();
    let mut br: BoolDecoder<'_> = BoolDecoder::new(&[]);
    assert_eq!(vp8dx_start_decode(&mut br, Some(&data), 20_000), 0);
    let p: Box<Vp8dComp> = create_decompressor(&Vp8dConfig {
        width: 0,
        height: 0,
        version: 0,
        postprocess: 0,
        max_threads: 0,
        error_concealment: 0,
    });
    let mut fc = p.common.fc;
    fc.mvc = [[128; 19]; 2];
    let env: ModeEnv = ModeEnv {
        frame_type: FrameType::Inter,
        segmentation_enabled: 0,
        update_mb_segmentation_map: 0,
        mb_segment_tree_probs: [255; 3],
        mb_no_coeff_skip: 0,
        prob_skip_false: 128,
        prob_intra: 64,
        prob_last: 128,
        prob_gf: 128,
        fc,
        ref_frame_sign_bias: [0, 0, 1, 0],
    };
    let e: MbEdges = MbEdges { left: -512, right: 384, top: -256, bottom: 640 };
    let still: Mv = Mv { row: 0, col: 0 };
    let (mut above, mut left, mut aboveleft) =
        (ModeInfo::default(), ModeInfo::default(), ModeInfo::default());
    let mut seen: [usize; 10] = [0; 10];
    for _ in 0..3000 {
        let mut m: ModeInfo = ModeInfo::default();
        read_mb_modes_mv(&mut br, &mut m, &above, &left, &aboveleft, &env, &e);
        let (mode, v) = (m.mbmi.mode, m.mbmi.mv);
        seen[mode as usize] += 1;
        let split: bool = mode == MbPredictionMode::SplitMv;
        assert_eq!(m.mbmi.is_4x4, split || mode == MbPredictionMode::BPred);
        let inter: bool = m.mbmi.ref_frame != MvReferenceFrame::Intra;
        let motion = matches!(
            mode,
            MbPredictionMode::NearestMv
                | MbPredictionMode::NearMv
                | MbPredictionMode::ZeroMv
                | MbPredictionMode::NewMv
                | MbPredictionMode::SplitMv
        );
        assert_eq!(inter, motion);
        if !inter || mode == MbPredictionMode::ZeroMv {
            assert_eq!(v, still);
        }
        if mode == MbPredictionMode::NearestMv || mode == MbPredictionMode::NearMv {
            assert!(!m.mbmi.need_to_clamp_mvs);
            assert!((e.left - 128..=e.right + 128).contains(&(v.col as i32)));
            assert!((e.top - 128..=e.bottom + 128).contains(&(v.row as i32)));
        }
        if split {
            assert!(matches!(m.bmi[15], BModeInfo::Mv(w) if w == v));
        }
        aboveleft = above;
        above = left;
        left = m;
    }
    assert!(seen.iter().all(|n| *n > 0), "{seen:?}");
}
