//! JPEG-LS (ISO/IEC 14495-1 / ITU-T T.87): lossless and near-lossless coding.

pub mod coding_parameters;
pub mod decoder;
pub mod encoder;
pub mod regular_mode_context;
pub mod run_mode_context;
pub mod scan_decoder;
pub mod scan_encoder;
pub mod traits;
pub mod validate_spiff_header;

pub use coding_parameters::{CodingParameters, JpeglsPcParameters};
pub use decoder::JpeglsDecoder;
pub use encoder::JpeglsEncoder;

use crate::error::JpeglsError;
use vstd::prelude::*;

verus! {

/// Interleave mode for multi-component scans.
#[derive(Debug, Clone, Copy, PartialEq, Eq, Structural)]
pub enum InterleaveMode {
    /// No interleaving (non-interleaved).
    NotInterleaved,
    /// Interleaved by line.
    Line,
    /// Interleaved by sample.
    Sample,
}

/// The number that stands for each value of [`InterleaveMode`] in a codestream.
pub open spec fn spec_interleave_mode_value(v: InterleaveMode) -> u8 {
    match v {
        InterleaveMode::NotInterleaved => 0,
        InterleaveMode::Line => 1,
        InterleaveMode::Sample => 2,
    }
}

impl InterleaveMode {
    /// The number that stands for this value in a codestream.
    pub fn value(self) -> (r: u8)
        ensures
            r == spec_interleave_mode_value(self),
    {
        match self {
            InterleaveMode::NotInterleaved => 0,
            InterleaveMode::Line => 1,
            InterleaveMode::Sample => 2,
        }
    }

    /// Maps a codestream number to its value; an unknown number is `InvalidData`.
    pub fn try_from(v: u8) -> (r: Result<InterleaveMode, JpeglsError>)
        ensures
            match r {
                Ok(x) => spec_interleave_mode_value(x) == v,
                Err(e) => e == JpeglsError::InvalidData && forall|x: InterleaveMode| spec_interleave_mode_value(x) != v,
            },
    {
        match v {
            0 => Ok(InterleaveMode::NotInterleaved),
            1 => Ok(InterleaveMode::Line),
            2 => Ok(InterleaveMode::Sample),
            _ => {
                proof {
                    assert forall|x: InterleaveMode| spec_interleave_mode_value(x) != v by {
                        match x {
                            InterleaveMode::NotInterleaved => {},
                            InterleaveMode::Line => {},
                            InterleaveMode::Sample => {},
                        }
                    }
                }
                Err(JpeglsError::InvalidData)
            },
        }
    }

}

/// Color transformation for multi-component scans.
#[derive(Debug, Clone, Copy, PartialEq, Eq, Structural)]
pub enum ColorTransformation {
    /// No color transformation.
    Identity,
    /// HP1 color transformation.
    Hp1,
    /// HP2 color transformation.
    Hp2,
    /// HP3 color transformation.
    Hp3,
}

/// The number that stands for each value of [`ColorTransformation`] in a codestream.
pub open spec fn spec_color_transformation_value(v: ColorTransformation) -> u8 {
    match v {
        ColorTransformation::Identity => 0,
        ColorTransformation::Hp1 => 1,
        ColorTransformation::Hp2 => 2,
        ColorTransformation::Hp3 => 3,
    }
}

impl ColorTransformation {
    /// The number that stands for this value in a codestream.
    pub fn value(self) -> (r: u8)
        ensures
            r == spec_color_transformation_value(self),
    {
        match self {
            ColorTransformation::Identity => 0,
            ColorTransformation::Hp1 => 1,
            ColorTransformation::Hp2 => 2,
            ColorTransformation::Hp3 => 3,
        }
    }

    /// Maps a codestream number to its value; an unknown number is `InvalidData`.
    pub fn try_from(v: u8) -> (r: Result<ColorTransformation, JpeglsError>)
        ensures
            match r {
                Ok(x) => spec_color_transformation_value(x) == v,
                Err(e) => e == JpeglsError::InvalidData && forall|x: ColorTransformation| spec_color_transformation_value(x) != v,
            },
    {
        match v {
            0 => Ok(ColorTransformation::Identity),
            1 => Ok(ColorTransformation::Hp1),
            2 => Ok(ColorTransformation::Hp2),
            3 => Ok(ColorTransformation::Hp3),
            _ => {
                proof {
                    assert forall|x: ColorTransformation| spec_color_transformation_value(x) != v by {
                        match x {
                            ColorTransformation::Identity => {},
                            ColorTransformation::Hp1 => {},
                            ColorTransformation::Hp2 => {},
                            ColorTransformation::Hp3 => {},
                        }
                    }
                }
                Err(JpeglsError::InvalidData)
            },
        }
    }

}

/// JPEG-LS compressed data format.
#[derive(Debug, Clone, Copy, PartialEq, Eq, Structural)]
pub enum CompressedDataFormat {
    /// Unknown format.
    Unknown,
    /// Interchange format.
    Interchange,
    /// Abbreviated image data format.
    AbbreviatedImageData,
    /// Abbreviated table specification format.
    AbbreviatedTableSpecification,
}

/// The number that stands for each value of [`CompressedDataFormat`] in a codestream.
pub open spec fn spec_compressed_data_format_value(v: CompressedDataFormat) -> u8 {
    match v {
        CompressedDataFormat::Unknown => 0,
        CompressedDataFormat::Interchange => 1,
        CompressedDataFormat::AbbreviatedImageData => 2,
        CompressedDataFormat::AbbreviatedTableSpecification => 3,
    }
}

impl CompressedDataFormat {
    /// The number that stands for this value in a codestream.
    pub fn value(self) -> (r: u8)
        ensures
            r == spec_compressed_data_format_value(self),
    {
        match self {
            CompressedDataFormat::Unknown => 0,
            CompressedDataFormat::Interchange => 1,
            CompressedDataFormat::AbbreviatedImageData => 2,
            CompressedDataFormat::AbbreviatedTableSpecification => 3,
        }
    }

}

/// SPIFF profile identifier.
#[derive(Debug, Clone, Copy, PartialEq, Eq, Structural)]
pub enum SpiffProfileId {
    /// No profile.
    NoProfile,
    /// Continuous tone base profile.
    ContinuousToneBase,
    /// Continuous tone progressive profile.
    ContinuousToneProgressive,
    /// Bi-level facsimile profile.
    BiLevelFacsimile,
    /// Continuous tone facsimile profile.
    ContinuousToneFacsimile,
}

/// The number that stands for each value of [`SpiffProfileId`] in a codestream.
pub open spec fn spec_spiff_profile_id_value(v: SpiffProfileId) -> u8 {
    match v {
        SpiffProfileId::NoProfile => 0,
        SpiffProfileId::ContinuousToneBase => 1,
        SpiffProfileId::ContinuousToneProgressive => 2,
        SpiffProfileId::BiLevelFacsimile => 3,
        SpiffProfileId::ContinuousToneFacsimile => 4,
    }
}

impl SpiffProfileId {
    /// The number that stands for this value in a codestream.
    pub fn value(self) -> (r: u8)
        ensures
            r == spec_spiff_profile_id_value(self),
    {
        match self {
            SpiffProfileId::NoProfile => 0,
            SpiffProfileId::ContinuousToneBase => 1,
            SpiffProfileId::ContinuousToneProgressive => 2,
            SpiffProfileId::BiLevelFacsimile => 3,
            SpiffProfileId::ContinuousToneFacsimile => 4,
        }
    }

    /// Maps a codestream number to its value; an unknown number is `InvalidData`.
    pub fn try_from(v: u8) -> (r: Result<SpiffProfileId, JpeglsError>)
        ensures
            match r {
                Ok(x) => spec_spiff_profile_id_value(x) == v,
                Err(e) => e == JpeglsError::InvalidData && forall|x: SpiffProfileId| spec_spiff_profile_id_value(x) != v,
            },
    {
        match v {
            0 => Ok(SpiffProfileId::NoProfile),
            1 => Ok(SpiffProfileId::ContinuousToneBase),
            2 => Ok(SpiffProfileId::ContinuousToneProgressive),
            3 => Ok(SpiffProfileId::BiLevelFacsimile),
            4 => Ok(SpiffProfileId::ContinuousToneFacsimile),
            _ => {
                proof {
                    assert forall|x: SpiffProfileId| spec_spiff_profile_id_value(x) != v by {
                        match x {
                            SpiffProfileId::NoProfile => {},
                            SpiffProfileId::ContinuousToneBase => {},
                            SpiffProfileId::ContinuousToneProgressive => {},
                            SpiffProfileId::BiLevelFacsimile => {},
                            SpiffProfileId::ContinuousToneFacsimile => {},
                        }
                    }
                }
                Err(JpeglsError::InvalidData)
            },
        }
    }

}

/// SPIFF color space identifier.
#[derive(Debug, Clone, Copy, PartialEq, Eq, Structural)]
pub enum SpiffColorSpace {
    /// Bi-level black.
    BiLevelBlack,
    /// YCbCr (ITU-R BT.709) video.
    YCbCrItuBt709Video,
    /// No color space (none).
    NoColorSpace,
    /// YCbCr (ITU-R BT.601-1) RGB.
    YCbCrItuBt6011Rgb,
    /// YCbCr (ITU-R BT.601-1) video.
    YCbCrItuBt6011Video,
    /// Grayscale.
    Grayscale,
    /// PhotoYCC.
    PhotoYcc,
    /// RGB.
    Rgb,
    /// CMY.
    Cmy,
    /// CMYK.
    Cmyk,
    /// YCCK.
    Ycck,
    /// CIE Lab.
    CieLab,
    /// Bi-level white.
    BiLevelWhite,
}

/// The number that stands for each value of [`SpiffColorSpace`] in a codestream.
pub open spec fn spec_spiff_color_space_value(v: SpiffColorSpace) -> u8 {
    match v {
        SpiffColorSpace::BiLevelBlack => 0,
        SpiffColorSpace::YCbCrItuBt709Video => 1,
        SpiffColorSpace::NoColorSpace => 2,
        SpiffColorSpace::YCbCrItuBt6011Rgb => 3,
        SpiffColorSpace::YCbCrItuBt6011Video => 4,
        SpiffColorSpace::Grayscale => 8,
        SpiffColorSpace::PhotoYcc => 9,
        SpiffColorSpace::Rgb => 10,
        SpiffColorSpace::Cmy => 11,
        SpiffColorSpace::Cmyk => 12,
        SpiffColorSpace::Ycck => 13,
        SpiffColorSpace::CieLab => 14,
        SpiffColorSpace::BiLevelWhite => 15,
    }
}

impl SpiffColorSpace {
    /// The number that stands for this value in a codestream.
    pub fn value(self) -> (r: u8)
        ensures
            r == spec_spiff_color_space_value(self),
    {
        match self {
            SpiffColorSpace::BiLevelBlack => 0,
            SpiffColorSpace::YCbCrItuBt709Video => 1,
            SpiffColorSpace::NoColorSpace => 2,
            SpiffColorSpace::YCbCrItuBt6011Rgb => 3,
            SpiffColorSpace::YCbCrItuBt6011Video => 4,
            SpiffColorSpace::Grayscale => 8,
            SpiffColorSpace::PhotoYcc => 9,
            SpiffColorSpace::Rgb => 10,
            SpiffColorSpace::Cmy => 11,
            SpiffColorSpace::Cmyk => 12,
            SpiffColorSpace::Ycck => 13,
            SpiffColorSpace::CieLab => 14,
            SpiffColorSpace::BiLevelWhite => 15,
        }
    }

    /// Maps a codestream number to its value; an unknown number is `InvalidData`.
    pub fn try_from(v: u8) -> (r: Result<SpiffColorSpace, JpeglsError>)
        ensures
            match r {
                Ok(x) => spec_spiff_color_space_value(x) == v,
                Err(e) => e == JpeglsError::InvalidData && forall|x: SpiffColorSpace| spec_spiff_color_space_value(x) != v,
            },
    {
        match v {
            0 => Ok(SpiffColorSpace::BiLevelBlack),
            1 => Ok(SpiffColorSpace::YCbCrItuBt709Video),
            2 => Ok(SpiffColorSpace::NoColorSpace),
            3 => Ok(SpiffColorSpace::YCbCrItuBt6011Rgb),
            4 => Ok(SpiffColorSpace::YCbCrItuBt6011Video),
            8 => Ok(SpiffColorSpace::Grayscale),
            9 => Ok(SpiffColorSpace::PhotoYcc),
            10 => Ok(SpiffColorSpace::Rgb),
            11 => Ok(SpiffColorSpace::Cmy),
            12 => Ok(SpiffColorSpace::Cmyk),
            13 => Ok(SpiffColorSpace::Ycck),
            14 => Ok(SpiffColorSpace::CieLab),
            15 => Ok(SpiffColorSpace::BiLevelWhite),
            _ => {
                proof {
                    assert forall|x: SpiffColorSpace| spec_spiff_color_space_value(x) != v by {
                        match x {
                            SpiffColorSpace::BiLevelBlack => {},
                            SpiffColorSpace::YCbCrItuBt709Video => {},
                            SpiffColorSpace::NoColorSpace => {},
                            SpiffColorSpace::YCbCrItuBt6011Rgb => {},
                            SpiffColorSpace::YCbCrItuBt6011Video => {},
                            SpiffColorSpace::Grayscale => {},
                            SpiffColorSpace::PhotoYcc => {},
                            SpiffColorSpace::Rgb => {},
                            SpiffColorSpace::Cmy => {},
                            SpiffColorSpace::Cmyk => {},
                            SpiffColorSpace::Ycck => {},
                            SpiffColorSpace::CieLab => {},
                            SpiffColorSpace::BiLevelWhite => {},
                        }
                    }
                }
                Err(JpeglsError::InvalidData)
            },
        }
    }

}

/// SPIFF compression type identifier.
#[derive(Debug, Clone, Copy, PartialEq, Eq, Structural)]
pub enum SpiffCompressionType {
    /// Uncompressed.
    Uncompressed,
    /// Modified Huffman.
    ModifiedHuffman,
    /// Modified Read.
    ModifiedRead,
    /// Modified Modified Read.
    ModifiedModifiedRead,
    /// JBIG.
    Jbig,
    /// JPEG.
    Jpeg,
    /// JPEG-LS.
    JpegLs,
}

/// The number that stands for each value of [`SpiffCompressionType`] in a codestream.
pub open spec fn spec_spiff_compression_type_value(v: SpiffCompressionType) -> u8 {
    match v {
        SpiffCompressionType::Uncompressed => 0,
        SpiffCompressionType::ModifiedHuffman => 1,
        SpiffCompressionType::ModifiedRead => 2,
        SpiffCompressionType::ModifiedModifiedRead => 3,
        SpiffCompressionType::Jbig => 4,
        SpiffCompressionType::Jpeg => 5,
        SpiffCompressionType::JpegLs => 6,
    }
}

impl SpiffCompressionType {
    /// The number that stands for this value in a codestream.
    pub fn value(self) -> (r: u8)
        ensures
            r == spec_spiff_compression_type_value(self),
    {
        match self {
            SpiffCompressionType::Uncompressed => 0,
            SpiffCompressionType::ModifiedHuffman => 1,
            SpiffCompressionType::ModifiedRead => 2,
            SpiffCompressionType::ModifiedModifiedRead => 3,
            SpiffCompressionType::Jbig => 4,
            SpiffCompressionType::Jpeg => 5,
            SpiffCompressionType::JpegLs => 6,
        }
    }

    /// Maps a codestream number to its value; an unknown number is `InvalidData`.
    pub fn try_from(v: u8) -> (r: Result<SpiffCompressionType, JpeglsError>)
        ensures
            match r {
                Ok(x) => spec_spiff_compression_type_value(x) == v,
                Err(e) => e == JpeglsError::InvalidData && forall|x: SpiffCompressionType| spec_spiff_compression_type_value(x) != v,
            },
    {
        match v {
            0 => Ok(SpiffCompressionType::Uncompressed),
            1 => Ok(SpiffCompressionType::ModifiedHuffman),
            2 => Ok(SpiffCompressionType::ModifiedRead),
            3 => Ok(SpiffCompressionType::ModifiedModifiedRead),
            4 => Ok(SpiffCompressionType::Jbig),
            5 => Ok(SpiffCompressionType::Jpeg),
            6 => Ok(SpiffCompressionType::JpegLs),
            _ => {
                proof {
                    assert forall|x: SpiffCompressionType| spec_spiff_compression_type_value(x) != v by {
                        match x {
                            SpiffCompressionType::Uncompressed => {},
                            SpiffCompressionType::ModifiedHuffman => {},
                            SpiffCompressionType::ModifiedRead => {},
                            SpiffCompressionType::ModifiedModifiedRead => {},
                            SpiffCompressionType::Jbig => {},
                            SpiffCompressionType::Jpeg => {},
                            SpiffCompressionType::JpegLs => {},
                        }
                    }
                }
                Err(JpeglsError::InvalidData)
            },
        }
    }

}

/// SPIFF resolution units identifier.
#[derive(Debug, Clone, Copy, PartialEq, Eq, Structural)]
pub enum SpiffResolutionUnits {
    /// Aspect ratio.
    AspectRatio,
    /// Dots per inch (DPI).
    DotsPerInch,
    /// Dots per centimeter.
    DotsPerCentimeter,
}

/// The number that stands for each value of [`SpiffResolutionUnits`] in a codestream.
pub open spec fn spec_spiff_resolution_units_value(v: SpiffResolutionUnits) -> u8 {
    match v {
        SpiffResolutionUnits::AspectRatio => 0,
        SpiffResolutionUnits::DotsPerInch => 1,
        SpiffResolutionUnits::DotsPerCentimeter => 2,
    }
}

impl SpiffResolutionUnits {
    /// The number that stands for this value in a codestream.
    pub fn value(self) -> (r: u8)
        ensures
            r == spec_spiff_resolution_units_value(self),
    {
        match self {
            SpiffResolutionUnits::AspectRatio => 0,
            SpiffResolutionUnits::DotsPerInch => 1,
            SpiffResolutionUnits::DotsPerCentimeter => 2,
        }
    }

    /// Maps a codestream number to its value; an unknown number is `InvalidData`.
    pub fn try_from(v: u8) -> (r: Result<SpiffResolutionUnits, JpeglsError>)
        ensures
            match r {
                Ok(x) => spec_spiff_resolution_units_value(x) == v,
                Err(e) => e == JpeglsError::InvalidData && forall|x: SpiffResolutionUnits| spec_spiff_resolution_units_value(x) != v,
            },
    {
        match v {
            0 => Ok(SpiffResolutionUnits::AspectRatio),
            1 => Ok(SpiffResolutionUnits::DotsPerInch),
            2 => Ok(SpiffResolutionUnits::DotsPerCentimeter),
            _ => {
                proof {
                    assert forall|x: SpiffResolutionUnits| spec_spiff_resolution_units_value(x) != v by {
                        match x {
                            SpiffResolutionUnits::AspectRatio => {},
                            SpiffResolutionUnits::DotsPerInch => {},
                            SpiffResolutionUnits::DotsPerCentimeter => {},
                        }
                    }
                }
                Err(JpeglsError::InvalidData)
            },
        }
    }

}

/// Still Picture Interchange File Format (SPIFF) header.
#[derive(Debug, Clone, Copy, PartialEq, Eq, Structural)]
pub struct SpiffHeader {
    pub profile_id: SpiffProfileId,
    pub component_count: i32,
    pub height: u32,
    pub width: u32,
    pub color_space: SpiffColorSpace,
    pub bits_per_sample: i32,
    pub compression_type: SpiffCompressionType,
    pub resolution_units: SpiffResolutionUnits,
    pub vertical_resolution: u32,
    pub horizontal_resolution: u32,
}

} // verus!
