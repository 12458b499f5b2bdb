//! AVIF container and AV1 bitstream parsing, with the logic around it
//! (item and track handling, tiles, image planes, RGB layouts) specified
//! and proved with Verus.

pub mod decoder;
pub mod image;
pub mod internal_utils;
pub mod layout;
pub mod parser;
pub mod reformat;
pub mod stream;

use vstd::prelude::*;

verus! {

/// Chroma subsampling of an image.
#[derive(Debug, Default, PartialEq, Eq, Structural, Copy, Clone)]
pub enum PixelFormat {
    Yuv444,
    Yuv422,
    #[default]
    Yuv420,
    Monochrome,
}

impl PixelFormat {
    pub open spec fn spec_plane_count(self) -> usize {
        match self {
            PixelFormat::Monochrome => 1,
            _ => 3,
        }
    }

    /// Number of colour planes that the format carries.
    pub fn plane_count(&self) -> (r: usize)
        ensures
            r == self.spec_plane_count(),
    {
        match self {
            PixelFormat::Monochrome => 1,
            PixelFormat::Yuv420 | PixelFormat::Yuv422 | PixelFormat::Yuv444 => 3,
        }
    }

    pub open spec fn spec_chroma_shift_x(self) -> u32 {
        if self == PixelFormat::Yuv420 || self == PixelFormat::Yuv422 {
            1
        } else {
            0
        }
    }

    pub open spec fn spec_chroma_shift_y(self) -> u32 {
        if self == PixelFormat::Yuv420 {
            1
        } else {
            0
        }
    }

    /// Horizontal chroma shift (log2 of the horizontal subsampling factor).
    pub fn chroma_shift_x(&self) -> (r: u32)
        ensures
            r == (if *self == PixelFormat::Yuv420 || *self == PixelFormat::Yuv422 { 1u32 } else { 0u32 }),
            r == self.spec_chroma_shift_x(),
    {
        match self {
            PixelFormat::Yuv420 | PixelFormat::Yuv422 => 1,
            _ => 0,
        }
    }

    /// Vertical chroma shift (log2 of the vertical subsampling factor).
    pub fn chroma_shift_y(&self) -> (r: u32)
        ensures
            r == (if *self == PixelFormat::Yuv420 { 1u32 } else { 0u32 }),
            r == self.spec_chroma_shift_y(),
    {
        match self {
            PixelFormat::Yuv420 => 1,
            _ => 0,
        }
    }
}

/// Position of the chroma samples relative to the luma samples.
#[derive(Debug, Default, PartialEq, Eq, Structural, Copy, Clone)]
pub enum ChromaSamplePosition {
    #[default]
    Unknown,
    Vertical,
    Colocated,
}

impl ChromaSamplePosition {
    pub open spec fn spec_from_u32(v: u32) -> ChromaSamplePosition {
        if v == 1 {
            ChromaSamplePosition::Vertical
        } else if v == 2 {
            ChromaSamplePosition::Colocated
        } else {
            ChromaSamplePosition::Unknown
        }
    }

    /// Maps a code point to its value; an unknown code point maps to `Unknown`.
    pub fn from_u32(v: u32) -> (r: ChromaSamplePosition)
        ensures
            r == Self::spec_from_u32(v),
    {
        if v == 1 {
            ChromaSamplePosition::Vertical
        } else if v == 2 {
            ChromaSamplePosition::Colocated
        } else {
            ChromaSamplePosition::Unknown
        }
    }
}

/// Colour primaries code points of ISO/IEC 23091-2.
#[derive(Debug, Default, PartialEq, Eq, Structural, Copy, Clone)]
pub enum ColorPrimaries {
    Unknown,
    Srgb,
    #[default]
    Unspecified,
    Bt470m,
    Bt470bg,
    Bt601,
    Smpte240,
    GenericFilm,
    Bt2020,
    Xyz,
    Smpte431,
    Smpte432,
    Ebu3213,
}

impl ColorPrimaries {
    pub open spec fn spec_from_u16(v: u16) -> ColorPrimaries {
        if v == 0 {
            ColorPrimaries::Unknown
        } else if v == 1 {
            ColorPrimaries::Srgb
        } else if v == 4 {
            ColorPrimaries::Bt470m
        } else if v == 5 {
            ColorPrimaries::Bt470bg
        } else if v == 6 {
            ColorPrimaries::Bt601
        } else if v == 7 {
            ColorPrimaries::Smpte240
        } else if v == 8 {
            ColorPrimaries::GenericFilm
        } else if v == 9 {
            ColorPrimaries::Bt2020
        } else if v == 10 {
            ColorPrimaries::Xyz
        } else if v == 11 {
            ColorPrimaries::Smpte431
        } else if v == 12 {
            ColorPrimaries::Smpte432
        } else if v == 22 {
            ColorPrimaries::Ebu3213
        } else {
            ColorPrimaries::Unspecified
        }
    }

    /// Maps a code point to its value; an unknown code point maps to `Unspecified`.
    pub fn from_u16(v: u16) -> (r: ColorPrimaries)
        ensures
            r == Self::spec_from_u16(v),
    {
        match v {
            0 => ColorPrimaries::Unknown,
            1 => ColorPrimaries::Srgb,
            4 => ColorPrimaries::Bt470m,
            5 => ColorPrimaries::Bt470bg,
            6 => ColorPrimaries::Bt601,
            7 => ColorPrimaries::Smpte240,
            8 => ColorPrimaries::GenericFilm,
            9 => ColorPrimaries::Bt2020,
            10 => ColorPrimaries::Xyz,
            11 => ColorPrimaries::Smpte431,
            12 => ColorPrimaries::Smpte432,
            22 => ColorPrimaries::Ebu3213,
            _ => ColorPrimaries::Unspecified,
        }
    }
}

/// Transfer characteristics code points of ISO/IEC 23091-2.
#[derive(Debug, Default, PartialEq, Eq, Structural, Copy, Clone)]
pub enum TransferCharacteristics {
    Unknown,
    Bt709,
    #[default]
    Unspecified,
    Bt470m,
    Bt470bg,
    Bt601,
    Smpte240,
    Linear,
    Log100,
    Log100Sqrt10,
    Iec61966,
    Bt1361,
    Srgb,
    Bt2020_10bit,
    Bt2020_12bit,
    Pq,
    Smpte428,
    Hlg,
}

impl TransferCharacteristics {
    pub open spec fn spec_from_u16(v: u16) -> TransferCharacteristics {
        if v == 0 {
            TransferCharacteristics::Unknown
        } else if v == 1 {
            TransferCharacteristics::Bt709
        } else if v == 4 {
            TransferCharacteristics::Bt470m
        } else if v == 5 {
            TransferCharacteristics::Bt470bg
        } else if v == 6 {
            TransferCharacteristics::Bt601
        } else if v == 7 {
            TransferCharacteristics::Smpte240
        } else if v == 8 {
            TransferCharacteristics::Linear
        } else if v == 9 {
            TransferCharacteristics::Log100
        } else if v == 10 {
            TransferCharacteristics::Log100Sqrt10
        } else if v == 11 {
            TransferCharacteristics::Iec61966
        } else if v == 12 {
            TransferCharacteristics::Bt1361
        } else if v == 13 {
            TransferCharacteristics::Srgb
        } else if v == 14 {
            TransferCharacteristics::Bt2020_10bit
        } else if v == 15 {
            TransferCharacteristics::Bt2020_12bit
        } else if v == 16 {
            TransferCharacteristics::Pq
        } else if v == 17 {
            TransferCharacteristics::Smpte428
        } else if v == 18 {
            TransferCharacteristics::Hlg
        } else {
            TransferCharacteristics::Unspecified
        }
    }

    /// Maps a code point to its value; an unknown code point maps to `Unspecified`.
    pub fn from_u16(v: u16) -> (r: TransferCharacteristics)
        ensures
            r == Self::spec_from_u16(v),
    {
        match v {
            0 => TransferCharacteristics::Unknown,
            1 => TransferCharacteristics::Bt709,
            4 => TransferCharacteristics::Bt470m,
            5 => TransferCharacteristics::Bt470bg,
            6 => TransferCharacteristics::Bt601,
            7 => TransferCharacteristics::Smpte240,
            8 => TransferCharacteristics::Linear,
            9 => TransferCharacteristics::Log100,
            10 => TransferCharacteristics::Log100Sqrt10,
            11 => TransferCharacteristics::Iec61966,
            12 => TransferCharacteristics::Bt1361,
            13 => TransferCharacteristics::Srgb,
            14 => TransferCharacteristics::Bt2020_10bit,
            15 => TransferCharacteristics::Bt2020_12bit,
            16 => TransferCharacteristics::Pq,
            17 => TransferCharacteristics::Smpte428,
            18 => TransferCharacteristics::Hlg,
            _ => TransferCharacteristics::Unspecified,
        }
    }
}

/// Matrix coefficients code points of ISO/IEC 23091-2.
#[derive(Debug, Default, PartialEq, Eq, Structural, Copy, Clone)]
pub enum MatrixCoefficients {
    Identity,
    Bt709,
    #[default]
    Unspecified,
    Fcc,
    Bt470bg,
    Bt601,
    Smpte240,
    Ycgco,
    Bt2020Ncl,
    Bt2020Cl,
    Smpte2085,
    ChromaDerivedNcl,
    ChromaDerivedCl,
    Ictcp,
    YcgcoRe,
    YcgcoRo,
}

impl MatrixCoefficients {
    pub open spec fn spec_from_u16(v: u16) -> MatrixCoefficients {
        if v == 0 {
            MatrixCoefficients::Identity
        } else if v == 1 {
            MatrixCoefficients::Bt709
        } else if v == 4 {
            MatrixCoefficients::Fcc
        } else if v == 5 {
            MatrixCoefficients::Bt470bg
        } else if v == 6 {
            MatrixCoefficients::Bt601
        } else if v == 7 {
            MatrixCoefficients::Smpte240
        } else if v == 8 {
            MatrixCoefficients::Ycgco
        } else if v == 9 {
            MatrixCoefficients::Bt2020Ncl
        } else if v == 10 {
            MatrixCoefficients::Bt2020Cl
        } else if v == 11 {
            MatrixCoefficients::Smpte2085
        } else if v == 12 {
            MatrixCoefficients::ChromaDerivedNcl
        } else if v == 13 {
            MatrixCoefficients::ChromaDerivedCl
        } else if v == 14 {
            MatrixCoefficients::Ictcp
        } else if v == 15 {
            MatrixCoefficients::YcgcoRe
        } else if v == 16 {
            MatrixCoefficients::YcgcoRo
        } else {
            MatrixCoefficients::Unspecified
        }
    }

    /// Maps a code point to its value; an unknown code point maps to `Unspecified`.
    pub fn from_u16(v: u16) -> (r: MatrixCoefficients)
        ensures
            r == Self::spec_from_u16(v),
    {
        match v {
            0 => MatrixCoefficients::Identity,
            1 => MatrixCoefficients::Bt709,
            4 => MatrixCoefficients::Fcc,
            5 => MatrixCoefficients::Bt470bg,
            6 => MatrixCoefficients::Bt601,
            7 => MatrixCoefficients::Smpte240,
            8 => MatrixCoefficients::Ycgco,
            9 => MatrixCoefficients::Bt2020Ncl,
            10 => MatrixCoefficients::Bt2020Cl,
            11 => MatrixCoefficients::Smpte2085,
            12 => MatrixCoefficients::ChromaDerivedNcl,
            13 => MatrixCoefficients::ChromaDerivedCl,
            14 => MatrixCoefficients::Ictcp,
            15 => MatrixCoefficients::YcgcoRe,
            16 => MatrixCoefficients::YcgcoRo,
            _ => MatrixCoefficients::Unspecified,
        }
    }
}

/// Every way in which the library can fail.
#[derive(Debug, Default, PartialEq, Eq, Structural, Copy, Clone)]
pub enum AvifError {
    #[default]
    NoError,
    UnknownError,
    InvalidFtyp,
    NoContent,
    NoYuvFormatSelected,
    ReformatFailed,
    UnsupportedDepth,
    EncodeColorFailed,
    EncodeAlphaFailed,
    BmffParseFailed,
    MissingImageItem,
    DecodeColorFailed,
    DecodeAlphaFailed,
    ColorAlphaSizeMismatch,
    IspeSizeMismatch,
    NoCodecAvailable,
    NoImagesRemaining,
    InvalidExifPayload,
    InvalidImageGrid,
    InvalidCodecSpecificOption,
    TruncatedData,
    IoNotSet,
    IoError,
    WaitingOnIo,
    InvalidArgument,
    NotImplemented,
    OutOfMemory,
    CannotChangeSetting,
    IncompatibleImage,
    EncodeGainMapFailed,
    DecodeGainMapFailed,
    InvalidToneMappedImage,
}

pub type AvifResult<T> = Result<T, AvifError>;

} // verus!
