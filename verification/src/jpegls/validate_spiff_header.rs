use crate::error::JpeglsError;
use crate::jpegls::{SpiffCompressionType, SpiffHeader};
use crate::FrameInfo;
use vstd::prelude::*;

verus! {

/// Accepts a SPIFF header in a JPEG-LS stream when its compression type is JPEG-LS.
pub fn validate_spiff_header(spiff_header: &SpiffHeader, _frame_info: &FrameInfo) -> (r: Result<(), JpeglsError>)
    ensures
        r is Ok <==> spiff_header.compression_type == SpiffCompressionType::JpegLs,
        r matches Err(e) ==> e == JpeglsError::InvalidSpiffHeader,
{
    if spiff_header.compression_type != SpiffCompressionType::JpegLs {
        return Err(JpeglsError::InvalidSpiffHeader);
    }
    Ok(())
}

} // verus!
