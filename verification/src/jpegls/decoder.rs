//! The JPEG-LS decoder: header, SPIFF check and the decoding of the scan.
use crate::error::JpeglsError;
use crate::jpeg_stream_reader::JpegStreamReader;
use crate::jpegls::scan_decoder::{decode_params_ok, ScanDecoder};
use crate::jpegls::validate_spiff_header::validate_spiff_header;
use crate::jpegls::{SpiffCompressionType, SpiffHeader};
use crate::jpegls::coding_parameters::{compute_limit_parameter, spec_limit, CodingParameters};
use crate::FrameInfo;
use vstd::prelude::*;

verus! {

/// Decodes a JPEG-LS codestream.
pub struct JpeglsDecoder<'a> {
    /// The codestream reader.
    pub reader: JpegStreamReader<'a>,
    /// The SPIFF header, when the stream has one.
    pub spiff_header: Option<SpiffHeader>,
}

impl<'a> JpeglsDecoder<'a> {
    /// A decoder at the start of `source`, with no SPIFF header read.
    pub fn new(source: &'a [u8]) -> (r: Self)
        requires
            source@.len() <= isize::MAX,
        ensures
            r.reader.wf(),
            r.reader.data() == source@,
            r.reader.pos() == 0,
            r.spiff_header is None,
    {
        Self { reader: JpegStreamReader::new(source), spiff_header: None }
    }

    /// Reads the header up to the first start of scan; a SPIFF header read on the way
    /// must announce JPEG-LS compression, else `InvalidSpiffHeader`.
    pub fn read_header(&mut self) -> (r: Result<(), JpeglsError>)
        requires
            old(self).reader.wf(),
        ensures
            final(self).reader.wf(),
            final(self).reader.data() == old(self).reader.data(),
            r is Ok ==> ({
                let d = final(self).reader.data();
                let p = final(self).reader.pos();
                p + 2 <= d.len() && d[p] == 0xFF && d[p + 1] == 0xDA
            }),
            r is Ok ==> (final(self).spiff_header matches Some(h) ==> h.compression_type
                == SpiffCompressionType::JpegLs),
            r matches Err(e) ==> e == JpeglsError::InvalidData || e == JpeglsError::ParameterValueNotSupported || e
                == JpeglsError::InvalidSpiffHeader,
    {
        self.reader.read_header(&mut self.spiff_header)?;
        match &self.spiff_header {
            Some(spiff) => {
                let frame_info = self.frame_info();
                validate_spiff_header(spiff, &frame_info)?;
            },
            None => {},
        }
        Ok(())
    }

    /// Whether a SPIFF header was read.
    pub fn read_spiff_header(&mut self) -> (r: Result<bool, JpeglsError>)
        ensures
            *final(self) == *old(self),
            r == Ok::<bool, JpeglsError>(old(self).spiff_header is Some),
    {
        Ok(self.spiff_header.is_some())
    }

    /// The frame read from the header.
    pub fn frame_info(&self) -> (r: FrameInfo)
        ensures
            r == self.reader.spec_frame_info(),
    {
        self.reader.frame_info()
    }

    /// Reads the start of scan, then decodes the scan into `destination`, one line after
    /// another (each line `width * components` samples, of one byte up to 8 bits per
    /// sample, else two little-endian bytes), with the preset parameters the header gave
    /// and the coding parameters of the scan, whose LIMIT follows from the sample precision.
    /// A line size that does not fit a `usize`, or a destination too small: `InvalidData`.
    pub fn decode(&mut self, destination: &mut [u8]) -> (r: Result<(), JpeglsError>)
        requires
            old(self).reader.wf(),
            old(self).reader.pos() <= old(self).reader.data().len(),
        ensures
            final(destination)@.len() == old(destination)@.len(),
            final(self).reader.data() == old(self).reader.data(),
            r matches Err(e) ==> e == JpeglsError::InvalidData || e == JpeglsError::ParameterValueNotSupported,
            r is Ok ==> decode_params_ok(
                final(self).reader.spec_frame_info(),
                final(self).reader.spec_preset(),
                scan_parameters(final(self).reader.spec_frame_info(), final(self).reader.spec_parameters()),
            ),
    {
        self.reader.read_start_of_scan_segment_jpegls()?;
        let frame_info = self.frame_info();
        let parameters = Self::decoding_parameters(frame_info, self.reader.parameters());
        let mut scan_decoder = ScanDecoder::new(
            frame_info,
            self.reader.preset_coding_parameters(),
            parameters,
            self.reader.remaining_data(),
        )?;
        let bytes: usize = if frame_info.bits_per_sample <= 8 { 1 } else { 2 };
        let comps: usize = if frame_info.component_count > 0 { frame_info.component_count as usize } else { 0 };
        let stride = match (frame_info.width as usize).checked_mul(comps) {
            Some(v) => match v.checked_mul(bytes) {
                Some(s) => s,
                None => {
                    return Err(JpeglsError::InvalidData);
                },
            },
            None => {
                return Err(JpeglsError::InvalidData);
            },
        };
        scan_decoder.decode_scan(destination, stride)?;
        Ok(())
    }

    /// The coding parameters of a scan read from the header, with LIMIT and the quantized
    /// precision set from the sample precision, as the encoder sets them.
    pub fn decoding_parameters(frame_info: FrameInfo, read: CodingParameters) -> (r: CodingParameters)
        ensures
            r == scan_parameters(frame_info, read),
    {
        if 0 <= frame_info.bits_per_sample && frame_info.bits_per_sample <= 16 {
            CodingParameters {
                limit: compute_limit_parameter(
                    frame_info.bits_per_sample,
                    read.near_lossless,
                    frame_info.component_count,
                ),
                quantized_bits_per_sample: frame_info.bits_per_sample,
                ..read
            }
        } else {
            read
        }
    }
}

/// The coding parameters a scan is decoded with: those read from its header, with LIMIT
/// and the quantized precision following from the sample precision (when it is at most 16).
pub open spec fn scan_parameters(frame_info: FrameInfo, read: CodingParameters) -> CodingParameters {
    if 0 <= frame_info.bits_per_sample <= 16 {
        CodingParameters {
            limit: spec_limit(frame_info.bits_per_sample as int) as i32,
            quantized_bits_per_sample: frame_info.bits_per_sample,
            ..read
        }
    } else {
        read
    }
}

} // verus!
