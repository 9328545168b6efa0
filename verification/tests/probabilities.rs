//! Probabilities, codewords and their trees.

use vp8_decoder_rs::prob::{
    get_binary_prob, get_prob, merge_probs, mode_mv_merge_probs, vpx_complement,
    vpx_tree_merge_probs, weighted_prob, TREE_SIZE,
};
use vp8_decoder_rs::treecoder::{
    vp8_tokens_from_tree, vp8_tokens_from_tree_offset, vp8_tree_probs_from_distribution, Token,
};

/// Three leaves: 0 is `0`, 1 is `10` and 2 is `11`.
const TREE: [i8; 4] = [0, 2, -1, -2];

fn blank(n: usize) -> Vec<Token> {
    vec![Token { value: -1, len: -1 }; n]
}

#[test]
fn shares_are_rounded_and_limited() {
    assert_eq!(get_prob(1, 2), 128);
    assert_eq!(get_prob(1, 3), 85);
    assert_eq!(get_prob(2, 3), 171);
    assert_eq!(get_prob(0, 9), 1);
    assert_eq!(get_prob(9, 9), 255);
    assert_eq!(get_prob(u32::MAX, 1), 255);
    assert_eq!(get_binary_prob(0, 0), 128);
    assert_eq!(get_binary_prob(3, 1), 192);
    assert_eq!(vpx_complement(100), 155);
    assert_eq!(TREE_SIZE(12), 22);
}

#[test]
fn mixtures_lie_between() {
    assert_eq!(weighted_prob(10, 200, 0), 10);
    assert_eq!(weighted_prob(10, 200, 256), 200);
    assert_eq!(weighted_prob(10, 200, 128), 105);
    assert_eq!(merge_probs(100, &[3, 1], 20, 128), 109);
    assert_eq!(merge_probs(100, &[30, 10], 20, 128), 146);
    assert_eq!(mode_mv_merge_probs(100, &[0, 0]), 100);
    assert_eq!(mode_mv_merge_probs(100, &[3, 1]), 109);
    assert_eq!(mode_mv_merge_probs(100, &[30, 10]), 146);
}

#[test]
fn trees_adapt_pair_by_pair() {
    let mut probs: [u8; 2] = [0, 0];
    vpx_tree_merge_probs(&TREE, &[100, 100], &[30, 10, 0], &mut probs);
    // Leaf 0 came 30 times of 40, and leaf 1 ten times of ten.
    assert_eq!(probs[0], mode_mv_merge_probs(100, &[30, 10]));
    assert_eq!(probs[1], mode_mv_merge_probs(100, &[10, 0]));
}

#[test]
fn codewords_follow_the_tree() {
    let mut p: Vec<Token> = blank(4);
    vp8_tokens_from_tree(&mut p, &TREE);
    assert_eq!(p[0], Token { value: 0, len: 1 });
    assert_eq!(p[1], Token { value: 2, len: 2 });
    assert_eq!(p[2], Token { value: 3, len: 2 });
    assert_eq!(p[3], Token { value: -1, len: -1 });
}

#[test]
fn codewords_with_an_offset() {
    let tree: [i8; 4] = [-10, 2, -11, -12];
    let mut p: Vec<Token> = blank(3);
    vp8_tokens_from_tree_offset(&mut p, &tree, 10);
    assert_eq!(p[0], Token { value: 0, len: 1 });
    assert_eq!(p[1], Token { value: 2, len: 2 });
    assert_eq!(p[2], Token { value: 3, len: 2 });
}

#[test]
fn probabilities_come_of_the_events() {
    let mut tok: Vec<Token> = blank(3);
    vp8_tokens_from_tree(&mut tok, &TREE);
    let mut probs: [u8; 3] = [7, 7, 7];
    let mut ct: [[u32; 2]; 3] = [[5, 5]; 3];
    vp8_tree_probs_from_distribution(3, &tok, &TREE, &mut probs, &mut ct, &[30, 10, 0], 256, 1);
    assert_eq!(ct, [[30, 10], [10, 0], [5, 5]]);
    assert_eq!(probs, [192, 255, 7]);
    vp8_tree_probs_from_distribution(3, &tok, &TREE, &mut probs, &mut ct, &[0, 0, 0], 256, 1);
    assert_eq!(probs, [128, 128, 7]);
    vp8_tree_probs_from_distribution(3, &tok, &TREE, &mut probs, &mut ct, &[0, 1, 1], 255, 0);
    assert_eq!(probs, [1, 127, 7]);
}
