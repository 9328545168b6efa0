//! A VP8 video decoder.

#![allow(non_camel_case_types, non_snake_case, non_upper_case_globals)]

pub mod alloccommon;
pub mod api;
pub mod arith;
pub mod codec;
pub mod coefheader;
pub mod commonaccess;
pub mod dboolhuff;
pub mod decodeframe;
pub mod decodemv;
pub mod dequantize;
pub mod dequantizer;
pub mod detokenize;
pub mod entropy;
pub mod entropymode;
pub mod extend;
pub mod filter;
pub mod findnearmv;
pub mod fragments;
pub mod framebufs;
pub mod frameheader;
pub mod framelines;
pub mod framerows;
pub mod frametag;
pub mod grid;
pub mod history;
pub mod idct_blk;
pub mod idctllm;
pub mod intramode;
pub mod intrapred;
pub mod intrapred4x4;
pub mod ivf;
pub mod keyframes;
pub mod loopfilter_filters;
pub mod macroblock;
pub mod mbmodes;
pub mod mbpitch;
pub mod mbplaces;
pub mod mbrows;
pub mod mvread;
pub mod newdecoder;
pub mod onyxd_if;
pub mod partitions;
pub mod predictions;
pub mod prob;
pub mod published;
pub mod quant_common;
pub mod reconinter;
pub mod reconintra;
pub mod reconintra4x4;
pub mod references;
pub mod setupintrarecon;
pub mod splitmv;
pub mod swapyv12buffer;
pub mod tables;
pub mod treecoder;
pub mod treereader;
pub mod types;
pub mod video_decoder;
pub mod vp8_cx_stub;
pub mod vp8_decoder;
pub mod vp8_dx_iface;
pub mod vp8_loopfilter;
pub mod vp9_dx_stub;
pub mod vpx_api;
pub mod yv12config;
