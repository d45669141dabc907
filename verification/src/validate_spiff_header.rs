//! Full validation of a SPIFF header against the frame it describes.
use crate::error::JpeglsError;
use crate::jpegls::{SpiffColorSpace, SpiffCompressionType, SpiffHeader, SpiffProfileId, SpiffResolutionUnits};
use crate::FrameInfo;
use vstd::prelude::*;

verus! {

/// Whether a color space is valid for a component count in a JPEG-LS SPIFF header.
pub open spec fn spec_is_valid_color_space(color_space: SpiffColorSpace, component_count: i32) -> bool {
    match color_space {
        SpiffColorSpace::NoColorSpace => true,
        SpiffColorSpace::BiLevelBlack | SpiffColorSpace::BiLevelWhite => false,
        SpiffColorSpace::Grayscale => component_count == 1,
        SpiffColorSpace::YCbCrItuBt709Video | SpiffColorSpace::YCbCrItuBt6011Rgb
        | SpiffColorSpace::YCbCrItuBt6011Video | SpiffColorSpace::Rgb | SpiffColorSpace::Cmy
        | SpiffColorSpace::PhotoYcc | SpiffColorSpace::CieLab => component_count == 3,
        SpiffColorSpace::Cmyk | SpiffColorSpace::Ycck => component_count == 4,
    }
}

fn is_valid_color_space(color_space: SpiffColorSpace, component_count: i32) -> (r: bool)
    ensures
        r == spec_is_valid_color_space(color_space, component_count),
{
    match color_space {
        SpiffColorSpace::NoColorSpace => true,
        SpiffColorSpace::BiLevelBlack | SpiffColorSpace::BiLevelWhite => false,
        SpiffColorSpace::Grayscale => component_count == 1,
        SpiffColorSpace::YCbCrItuBt709Video | SpiffColorSpace::YCbCrItuBt6011Rgb
        | SpiffColorSpace::YCbCrItuBt6011Video | SpiffColorSpace::Rgb | SpiffColorSpace::Cmy
        | SpiffColorSpace::PhotoYcc | SpiffColorSpace::CieLab => component_count == 3,
        SpiffColorSpace::Cmyk | SpiffColorSpace::Ycck => component_count == 4,
    }
}

fn is_valid_resolution_units(resolution_units: SpiffResolutionUnits) -> (r: bool)
    ensures
        r,
{
    match resolution_units {
        SpiffResolutionUnits::AspectRatio | SpiffResolutionUnits::DotsPerCentimeter
        | SpiffResolutionUnits::DotsPerInch => true,
    }
}

/// Whether a SPIFF header is valid for a JPEG-LS frame.
pub open spec fn spec_valid_spiff_header(h: SpiffHeader, f: FrameInfo) -> bool {
    &&& h.compression_type == SpiffCompressionType::JpegLs
    &&& h.profile_id == SpiffProfileId::NoProfile
    &&& h.horizontal_resolution != 0
    &&& h.vertical_resolution != 0
    &&& h.component_count == f.component_count
    &&& spec_is_valid_color_space(h.color_space, h.component_count)
    &&& h.bits_per_sample == f.bits_per_sample
    &&& h.height == f.height
    &&& h.width == f.width
}

/// Checks a SPIFF header against the frame: JPEG-LS compression, no profile, non-zero resolutions,
/// a color space that fits the component count, and the frame's size, depth and component count.
pub fn validate_spiff_header(spiff_header: &SpiffHeader, frame_info: &FrameInfo) -> (r: Result<(), JpeglsError>)
    ensures
        r is Ok <==> spec_valid_spiff_header(*spiff_header, *frame_info),
        r matches Err(e) ==> e == JpeglsError::InvalidSpiffHeader,
{
    if spiff_header.compression_type != SpiffCompressionType::JpegLs {
        return Err(JpeglsError::InvalidSpiffHeader);
    }
    if spiff_header.profile_id != SpiffProfileId::NoProfile {
        return Err(JpeglsError::InvalidSpiffHeader);
    }
    if !is_valid_resolution_units(spiff_header.resolution_units) {
        return Err(JpeglsError::InvalidSpiffHeader);
    }
    if spiff_header.horizontal_resolution == 0 || spiff_header.vertical_resolution == 0 {
        return Err(JpeglsError::InvalidSpiffHeader);
    }
    if spiff_header.component_count != frame_info.component_count {
        return Err(JpeglsError::InvalidSpiffHeader);
    }
    if !is_valid_color_space(spiff_header.color_space, spiff_header.component_count) {
        return Err(JpeglsError::InvalidSpiffHeader);
    }
    if spiff_header.bits_per_sample != frame_info.bits_per_sample {
        return Err(JpeglsError::InvalidSpiffHeader);
    }
    if spiff_header.height != frame_info.height {
        return Err(JpeglsError::InvalidSpiffHeader);
    }
    if spiff_header.width != frame_info.width {
        return Err(JpeglsError::InvalidSpiffHeader);
    }
    Ok(())
}

} // verus!
