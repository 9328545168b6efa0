//! Streams in files.

use vp8_decoder_rs::ivf::{read_ivf_first_packet, IvfReader};

fn file(frames: &[&[u8]]) -> Vec<u8> {
    let mut f: Vec<u8> = b"DKIF".to_vec();
    f.resize(32, 0);
    for frame in frames {
        f.extend_from_slice(&(frame.len() as u32).to_le_bytes());
        f.extend_from_slice(&[9; 8]);
        f.extend_from_slice(frame);
    }
    f
}

#[test]
fn frames_are_read_back_in_order() {
    let long: Vec<u8> = (0..300u32).map(|k| k as u8).collect();
    let f: Vec<u8> = file(&[&[1, 2, 3], &[], &long]);
    let mut r = IvfReader::open(&f).unwrap();
    assert_eq!(r.next_frame(), Some(vec![1, 2, 3]));
    assert_eq!(r.next_frame(), Some(vec![]));
    assert_eq!(r.next_frame(), Some(long));
    assert_eq!(r.next_frame(), None);
    assert_eq!(r.next_frame(), None);
    assert_eq!(read_ivf_first_packet(&f), Some(vec![1, 2, 3]));
}

#[test]
fn files_must_start_as_they_should() {
    let mut f: Vec<u8> = file(&[&[1]]);
    assert!(IvfReader::open(&f[..31]).is_none());
    assert!(IvfReader::open(&f[..32]).is_some());
    f[3] = b'G';
    assert!(IvfReader::open(&f).is_none());
    assert_eq!(read_ivf_first_packet(&f), None);
}

#[test]
fn cut_frames_are_not_given() {
    let f: Vec<u8> = file(&[&[1, 2, 3, 4]]);
    assert_eq!(read_ivf_first_packet(&f[..f.len() - 1]), None);
    assert_eq!(read_ivf_first_packet(&f[..40]), None);
    let mut r = IvfReader::open(&f[..f.len() - 1]).unwrap();
    assert_eq!(r.next_frame(), None);
    assert_eq!(r.next_frame(), None);
}
