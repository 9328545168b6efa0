//! Colors and planes of pictures.

use vstd::prelude::*;

verus! {

/// What the primary colors are.
#[non_exhaustive]
#[derive(Debug, Clone, Copy, PartialEq, Eq, Structural, Hash)]
pub enum ColorPrimaries {
    Unspecified,
    Bt709,
    Smpte170m,
    Bt470bg,
    Bt2020,
    Smpte432,
}

impl Default for ColorPrimaries {
    fn default() -> (c: ColorPrimaries)
        ensures
            c == ColorPrimaries::Unspecified,
    {
        ColorPrimaries::Unspecified
    }
}

/// How light becomes numbers.
#[non_exhaustive]
#[derive(Debug, Clone, Copy, PartialEq, Eq, Structural, Hash)]
#[allow(non_camel_case_types)]
pub enum TransferCharacteristics {
    Unspecified,
    Bt709,
    Bt601,
    Smpte240,
    Linear,
    Srgb,
    Bt2020_10,
    Bt2020_12,
    SmptePq,
    AribStdB67,
}

impl Default for TransferCharacteristics {
    fn default() -> (c: TransferCharacteristics)
        ensures
            c == TransferCharacteristics::Unspecified,
    {
        TransferCharacteristics::Unspecified
    }
}

/// How colors become luma and chroma.
#[non_exhaustive]
#[derive(Debug, Clone, Copy, PartialEq, Eq, Structural, Hash)]
pub enum MatrixCoefficients {
    Unspecified,
    Identity,
    Bt709,
    Bt601,
    Smpte240,
    Bt2020Ncl,
    Bt2020Cl,
}

impl Default for MatrixCoefficients {
    fn default() -> (c: MatrixCoefficients)
        ensures
            c == MatrixCoefficients::Unspecified,
    {
        MatrixCoefficients::Unspecified
    }
}

/// Which part of the numbers is used.
#[derive(Debug, Clone, Copy, PartialEq, Eq, Structural, Hash)]
pub enum ColorRange {
    Limited,
    Full,
}

impl Default for ColorRange {
    fn default() -> (c: ColorRange)
        ensures
            c == ColorRange::Limited,
    {
        ColorRange::Limited
    }
}

/// What the numbers of a picture mean.
#[derive(Debug, Clone, Copy, PartialEq, Eq, Structural, Hash)]
pub struct ColorSpace {
    pub primaries: ColorPrimaries,
    pub transfer: TransferCharacteristics,
    pub matrix: MatrixCoefficients,
    pub range: ColorRange,
}

/// Nothing is known of the colors, and the range is limited.
pub open spec fn unspecified_colors() -> ColorSpace {
    ColorSpace {
        primaries: ColorPrimaries::Unspecified,
        transfer: TransferCharacteristics::Unspecified,
        matrix: MatrixCoefficients::Unspecified,
        range: ColorRange::Limited,
    }
}

impl Default for ColorSpace {
    fn default() -> (c: ColorSpace)
        ensures
            c == unspecified_colors(),
    {
        ColorSpace {
            primaries: ColorPrimaries::Unspecified,
            transfer: TransferCharacteristics::Unspecified,
            matrix: MatrixCoefficients::Unspecified,
            range: ColorRange::Limited,
        }
    }
}

/// How pixels are laid out.
#[non_exhaustive]
#[derive(Debug, Clone, Copy, PartialEq, Eq, Structural, Hash)]
pub enum PixelFormat {
    I420,
    NV12,
    I422,
    I444,
    I420A,
    Monochrome,
}

/// A plane of a picture.
#[derive(Debug, Clone, Copy, PartialEq, Eq, Structural, Hash)]
pub enum VideoPlane {
    Y,
    U,
    V,
    UV,
    Alpha,
}

} // verus!
