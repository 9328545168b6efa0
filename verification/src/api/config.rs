//! What a decoder is asked for.

use vstd::prelude::*;

verus! {

/// A video codec.
#[non_exhaustive]
#[derive(Debug, Clone, Copy, PartialEq, Eq, Structural, Hash)]
pub enum Codec {
    H264,
    VP8,
    VP9,
    AV1,
    AV2,
}

/// Whether many pictures or early pictures are wanted.
#[derive(Debug, Clone, Copy, PartialEq, Eq, Structural, Hash)]
pub enum LatencyMode {
    Throughput,
    LowLatency,
}

impl Default for LatencyMode {
    fn default() -> (m: LatencyMode)
        ensures
            m == LatencyMode::Throughput,
    {
        LatencyMode::Throughput
    }
}

/// What a decoder is asked for, with parameters of a type that the application chooses.
pub struct DecoderConfig<P> {
    pub codec: Codec,
    pub latency_mode: LatencyMode,
    pub custom_params: Option<P>,
}

impl DecoderConfig<()> {
    /// A decoder for `codec`, for many pictures, without parameters.
    pub fn new(codec: Codec) -> (c: DecoderConfig<()>)
        ensures
            c.codec == codec,
            c.latency_mode == LatencyMode::Throughput,
            c.custom_params is None,
    {
        DecoderConfig { codec, latency_mode: LatencyMode::Throughput, custom_params: None }
    }
}

impl<P> DecoderConfig<P> {
    /// The same with another latency mode.
    pub fn with_latency_mode(self, mode: LatencyMode) -> (c: DecoderConfig<P>)
        ensures
            c == (DecoderConfig { latency_mode: mode, ..self }),
    {
        DecoderConfig {
            codec: self.codec,
            latency_mode: mode,
            custom_params: self.custom_params,
        }
    }

    /// The same with other parameters.
    pub fn with_custom_params<T>(self, params: T) -> (c: DecoderConfig<T>)
        ensures
            c.codec == self.codec,
            c.latency_mode == self.latency_mode,
            c.custom_params == Some(params),
    {
        DecoderConfig {
            codec: self.codec,
            latency_mode: self.latency_mode,
            custom_params: Some(params),
        }
    }
}

} // verus!
