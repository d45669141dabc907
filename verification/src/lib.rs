//! Verified JPEG-LS and JPEG 2000 codestream library.
use vstd::prelude::*;

pub mod bits;
pub mod constants;
pub mod error;
pub mod jpeg_marker_code;
pub mod jpeg_stream_reader;
pub mod jpeg_stream_writer;
pub mod jpeg2000;
pub mod jpegls;
pub mod validate_spiff_header;

pub use error::JpeglsError;

verus! {

/// Basic information about a compressed image frame.
#[derive(Debug, Clone, Copy, PartialEq, Eq, Structural)]
pub struct FrameInfo {
    /// Width of the frame in pixels.
    pub width: u32,
    /// Height of the frame in pixels.
    pub height: u32,
    /// Bits per sample.
    pub bits_per_sample: i32,
    /// Number of color components.
    pub component_count: i32,
}

impl Default for FrameInfo {
    fn default() -> (r: Self)
        ensures
            r == (FrameInfo { width: 0, height: 0, bits_per_sample: 0, component_count: 0 }),
    {
        FrameInfo { width: 0, height: 0, bits_per_sample: 0, component_count: 0 }
    }
}

} // verus!
