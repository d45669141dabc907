//! The JPEG-LS encoder: the header segments, then the scan.
use crate::error::JpeglsError;
use crate::jpeg_marker_code::JpegMarkerCode;
use crate::jpeg_stream_writer::{lse_bytes, marker_bytes, sof55_bytes, sos_jpegls_bytes, JpegStreamWriter};
use crate::jpegls::coding_parameters::{compute_default, compute_limit_parameter, CodingParameters, JpeglsPcParameters};
use crate::jpegls::scan_encoder::{coded_components, scan_params_ok, ScanEncoder};
use crate::jpegls::{ColorTransformation, InterleaveMode};
use crate::FrameInfo;
use vstd::prelude::*;

verus! {

/// Encodes an image as a JPEG-LS codestream.
pub struct JpeglsEncoder<'a> {
    /// Where the codestream goes.
    pub writer: JpegStreamWriter<'a>,
    /// The frame to encode, once set.
    pub frame_info: Option<FrameInfo>,
    /// NEAR: 0 for lossless coding.
    pub near_lossless: i32,
    /// How the components are interleaved.
    pub interleave_mode: InterleaveMode,
    /// Preset coding parameters; the defaults of the sample range when not set.
    pub pc_parameters: Option<JpeglsPcParameters>,
}

/// The coding parameters of a scan of `fi` with NEAR `near` and interleave mode `mode`.
pub open spec fn scan_coding_parameters(fi: FrameInfo, near: i32, mode: InterleaveMode) -> CodingParameters {
    CodingParameters {
        near_lossless: near,
        interleave_mode: mode,
        restart_interval: 0,
        limit: crate::jpegls::coding_parameters::spec_limit(fi.bits_per_sample as int) as i32,
        quantized_bits_per_sample: fi.bits_per_sample,
        transformation: ColorTransformation::Identity,
        mapping_table_id: 0,
    }
}

/// The preset parameters of a scan: those given, else the defaults of the sample range.
pub open spec fn scan_preset(fi: FrameInfo, near: i32, pc: Option<JpeglsPcParameters>) -> JpeglsPcParameters {
    match pc {
        Some(q) => q,
        None => crate::jpegls::coding_parameters::spec_compute_default(
            vstd::arithmetic::power2::pow2(fi.bits_per_sample as nat) - 1,
            near as int,
        ),
    }
}

/// `len` samples hold `height` lines of `width * comps`, with room for the line
/// buffers; a frame with no column has no line.
pub open spec fn samples_fit_spec(len: int, width: int, height: int, comps: int) -> bool {
    if width == 0 {
        height == 0
    } else {
        &&& width < usize::MAX
        &&& (width + 1) * comps <= usize::MAX
        &&& width * height * comps <= usize::MAX
        &&& len >= width * height * comps
    }
}

/// The header the encoder writes before the scan.
pub open spec fn jpegls_header_bytes(fi: FrameInfo, pc: JpeglsPcParameters, near: i32, mode: InterleaveMode) -> Seq<u8> {
    marker_bytes(JpegMarkerCode::StartOfImage) + sof55_bytes(fi) + lse_bytes(pc) + sos_jpegls_bytes(
        fi.component_count as int,
        near as int,
        mode,
    )
}

impl<'a> JpeglsEncoder<'a> {
    /// An encoder writing into `destination`, lossless, not interleaved, with no frame set.
    pub fn new(destination: &'a mut [u8]) -> (r: Self)
        ensures
            r.writer.wf(),
            r.writer.position == 0,
            r.writer.destination@ == old(destination)@,
            r.frame_info is None,
            r.near_lossless == 0,
            r.interleave_mode == InterleaveMode::NotInterleaved,
            r.pc_parameters is None,
    {
        Self {
            writer: JpegStreamWriter::new(destination),
            frame_info: None,
            near_lossless: 0,
            interleave_mode: InterleaveMode::NotInterleaved,
            pc_parameters: None,
        }
    }

    /// Sets the frame to encode.
    pub fn set_frame_info(&mut self, frame_info: FrameInfo) -> (r: Result<(), JpeglsError>)
        ensures
            r is Ok,
            *final(self) == (JpeglsEncoder { frame_info: Some(frame_info), ..*old(self) }),
    {
        self.frame_info = Some(frame_info);
        Ok(())
    }

    /// Sets NEAR.
    pub fn set_near_lossless(&mut self, near_lossless: i32) -> (r: Result<(), JpeglsError>)
        ensures
            r is Ok,
            *final(self) == (JpeglsEncoder { near_lossless, ..*old(self) }),
    {
        self.near_lossless = near_lossless;
        Ok(())
    }

    /// Sets the interleave mode.
    pub fn set_interleave_mode(&mut self, interleave_mode: InterleaveMode) -> (r: Result<(), JpeglsError>)
        ensures
            r is Ok,
            *final(self) == (JpeglsEncoder { interleave_mode, ..*old(self) }),
    {
        self.interleave_mode = interleave_mode;
        Ok(())
    }

    /// Sets the preset coding parameters.
    pub fn set_preset_coding_parameters(&mut self, pc_parameters: JpeglsPcParameters) -> (r: Result<(), JpeglsError>)
        ensures
            r is Ok,
            *final(self) == (JpeglsEncoder { pc_parameters: Some(pc_parameters), ..*old(self) }),
    {
        self.pc_parameters = Some(pc_parameters);
        Ok(())
    }

    /// Encodes `source` (8-bit samples up to 8 bits per sample, else 16-bit
    /// little-endian ones): start of image, frame header, preset parameters, start of
    /// scan, the coded scan, end of image. Gives the bytes written.
    ///
    /// With no frame set: `InvalidParameterComponentCount`. A frame, NEAR or preset
    /// parameters outside the ranges the scan coder takes: `ParameterValueNotSupported`.
    /// Too few samples in `source`: `InvalidData`. A full destination:
    /// `ParameterValueNotSupported`.
    #[verifier::rlimit(40)]
    pub fn encode(&mut self, source: &[u8]) -> (r: Result<usize, JpeglsError>)
        requires
            old(self).writer.wf(),
        ensures
            final(self).writer.wf(),
            old(self).frame_info is None ==> r == Err::<usize, JpeglsError>(JpeglsError::InvalidParameterComponentCount),
            r matches Ok(n) ==> {
                let fi = old(self).frame_info->Some_0;
                let max = vstd::arithmetic::power2::pow2(fi.bits_per_sample as nat) - 1;
                let pc = match old(self).pc_parameters {
                    Some(p) => p,
                    None => crate::jpegls::coding_parameters::spec_compute_default(max, old(self).near_lossless as int),
                };
                &&& n == final(self).writer.position
                &&& scan_params_ok(fi, pc, scan_coding_parameters(fi, old(self).near_lossless, old(self).interleave_mode))
                &&& ({
                    let out = final(self).writer.out();
                    let head = old(self).writer.out() + jpegls_header_bytes(
                        fi,
                        pc,
                        old(self).near_lossless,
                        old(self).interleave_mode,
                    );
                    &&& out.len() >= head.len() + 2
                    &&& out.subrange(0, head.len() as int) == head
                    &&& out.subrange(out.len() - 2, out.len() as int) == marker_bytes(JpegMarkerCode::EndOfImage)
                })
            },
            r matches Err(e) ==> e == JpeglsError::InvalidParameterComponentCount || e
                == JpeglsError::ParameterValueNotSupported || e == JpeglsError::InvalidData,
    {
        let frame_info = match self.frame_info {
            Some(f) => f,
            None => {
                return Err(JpeglsError::InvalidParameterComponentCount);
            },
        };
        let near = self.near_lossless;
        let mode = self.interleave_mode;
        let (pc, coding_parameters) = match Self::scan_setup(&frame_info, near, mode, self.pc_parameters) {
            Some(v) => v,
            None => {
                return Err(JpeglsError::ParameterValueNotSupported);
            },
        };
        let ghost o = self.writer.out();
        Self::write_header(&mut self.writer, &frame_info, &pc, near, mode)?;
        let ghost before = self.writer.out();
        if frame_info.bits_per_sample <= 8 {
            Self::encode_scan_typed_u8(&mut self.writer, source, &frame_info, pc, coding_parameters)?;
        } else {
            let samples = match le_u16_samples(source) {
                Some(v) => v,
                None => {
                    return Err(JpeglsError::InvalidData);
                },
            };
            Self::encode_scan_typed_u16(&mut self.writer, samples.as_slice(), &frame_info, pc, coding_parameters)?;
        }
        let ghost scan = self.writer.out().subrange(before.len() as int, self.writer.out().len() as int);
        assert(self.writer.out() =~= before + scan);
        self.writer.write_end_of_image()?;
        proof {
            let out = self.writer.out();
            let head = o + jpegls_header_bytes(frame_info, pc, near, mode);
            assert(out =~= head + scan + marker_bytes(JpegMarkerCode::EndOfImage));
            assert(out.subrange(0, head.len() as int) =~= head);
            assert(out.subrange(out.len() - 2, out.len() as int) =~= marker_bytes(JpegMarkerCode::EndOfImage));
        }
        Ok(self.writer.len())
    }

    /// The preset parameters (`pc`, else the defaults of the sample range) and coding
    /// parameters of a scan, when they are in the ranges the scan coder takes.
    fn scan_setup(frame_info: &FrameInfo, near: i32, mode: InterleaveMode, pc: Option<JpeglsPcParameters>) -> (r:
        Option<(JpeglsPcParameters, CodingParameters)>)
        ensures
            r matches Some((p, cp)) ==> {
                &&& p == scan_preset(*frame_info, near, pc)
                &&& cp == scan_coding_parameters(*frame_info, near, mode)
                &&& scan_params_ok(*frame_info, p, cp)
            },
            r is Some <==> scan_params_ok(
                *frame_info,
                scan_preset(*frame_info, near, pc),
                scan_coding_parameters(*frame_info, near, mode),
            ),
    {
        let bps = frame_info.bits_per_sample;
        if bps < 2 || bps > 16 || near < 0 || near > 255 || frame_info.component_count < 1
            || frame_info.component_count > 255 {
            return None;
        }
        proof {
            vstd::arithmetic::power2::lemma2_to64();
            if bps < 16 {
                vstd::arithmetic::power2::lemma_pow2_strictly_increases(bps as nat, 16);
            }
            vstd::bits::lemma_u32_shl_is_mul(1u32, bps as u32);
        }
        let max_sample_value: i32 = ((1u32 << (bps as u32)) - 1) as i32;
        let p = match pc {
            Some(q) => q,
            None => compute_default(max_sample_value, near),
        };
        let cp = CodingParameters {
            near_lossless: near,
            interleave_mode: mode,
            restart_interval: 0,
            limit: compute_limit_parameter(bps, near, frame_info.component_count),
            quantized_bits_per_sample: bps,
            transformation: ColorTransformation::Identity,
            mapping_table_id: 0,
        };
        if !scan_params_ok_check(frame_info, &p, &cp) {
            return None;
        }
        Some((p, cp))
    }

    /// Writes the start of image, the frame header, the preset parameters and the start
    /// of scan.
    fn write_header(
        writer: &mut JpegStreamWriter,
        frame_info: &FrameInfo,
        pc: &JpeglsPcParameters,
        near: i32,
        mode: InterleaveMode,
    ) -> (r: Result<(), JpeglsError>)
        requires
            old(writer).wf(),
            1 <= frame_info.component_count <= 255,
        ensures
            final(writer).wf(),
            final(writer).cap() == old(writer).cap(),
            r is Ok ==> final(writer).out() == old(writer).out() + jpegls_header_bytes(*frame_info, *pc, near, mode),
            r matches Err(e) ==> e == JpeglsError::ParameterValueNotSupported,
    {
        let ghost o = writer.out();
        writer.write_start_of_image()?;
        writer.write_start_of_frame_jpegls(frame_info)?;
        writer.write_jpegls_preset_parameters_segment(pc)?;
        writer.write_start_of_scan_segment(frame_info.component_count, near, mode)?;
        assert(writer.out() =~= o + jpegls_header_bytes(*frame_info, *pc, near, mode));
        Ok(())
    }

    /// Codes the scan of 8-bit `source` into a buffer of the room left, then appends it.
    fn encode_scan_typed_u8(
        writer: &mut JpegStreamWriter,
        source: &[u8],
        frame_info: &FrameInfo,
        pc: JpeglsPcParameters,
        coding_params: CodingParameters,
    ) -> (r: Result<usize, JpeglsError>)
        requires
            old(writer).wf(),
            coding_params.interleave_mode == coding_params.interleave_mode,
        ensures
            final(writer).wf(),
            final(writer).cap() == old(writer).cap(),
            final(writer).out().len() >= old(writer).out().len(),
            final(writer).out().subrange(0, old(writer).out().len() as int) == old(writer).out(),
            r matches Err(e) ==> e == JpeglsError::ParameterValueNotSupported || e == JpeglsError::InvalidData,
            !scan_params_ok(*frame_info, pc, coding_params) ==> r == Err::<usize, JpeglsError>(
                JpeglsError::ParameterValueNotSupported,
            ),
            scan_params_ok(*frame_info, pc, coding_params) && !samples_fit_spec(
                source@.len() as int,
                frame_info.width as int,
                frame_info.height as int,
                coded_components(*frame_info, coding_params),
            ) ==> r == Err::<usize, JpeglsError>(JpeglsError::InvalidData),
            r matches Ok(m) ==> final(writer).out().len() == old(writer).out().len() + m,
    {
        if !scan_params_ok_check(frame_info, &pc, &coding_params) {
            return Err(JpeglsError::ParameterValueNotSupported);
        }
        let width = frame_info.width as usize;
        let height = frame_info.height as usize;
        let comps: usize = if coding_params.interleave_mode == InterleaveMode::NotInterleaved {
            1
        } else {
            frame_info.component_count as usize
        };
        if !samples_fit(source.len(), width, height, comps) {
            return Err(JpeglsError::InvalidData);
        }
        let room = writer.destination.len() - writer.position;
        let mut buffer: Vec<u8> = Vec::new();
        let mut i: usize = 0;
        while i < room
            invariant
                i <= room,
                buffer@.len() == i,
            decreases room - i,
        {
            buffer.push(0);
            i = i + 1;
        }
        let n = {
            let mut scan_encoder = ScanEncoder::new(*frame_info, pc, coding_params, buffer.as_mut_slice());
            scan_encoder.encode_scan(source, width)?
        };
        let written = Self::append_prefix(writer, &buffer, n)?;
        Ok(written)
    }

    /// Codes the scan of 16-bit `source` into a buffer of the room left, then appends it.
    fn encode_scan_typed_u16(
        writer: &mut JpegStreamWriter,
        source: &[u16],
        frame_info: &FrameInfo,
        pc: JpeglsPcParameters,
        coding_params: CodingParameters,
    ) -> (r: Result<usize, JpeglsError>)
        requires
            old(writer).wf(),
        ensures
            final(writer).wf(),
            final(writer).cap() == old(writer).cap(),
            final(writer).out().len() >= old(writer).out().len(),
            final(writer).out().subrange(0, old(writer).out().len() as int) == old(writer).out(),
            r matches Err(e) ==> e == JpeglsError::ParameterValueNotSupported || e == JpeglsError::InvalidData,
            !scan_params_ok(*frame_info, pc, coding_params) ==> r == Err::<usize, JpeglsError>(
                JpeglsError::ParameterValueNotSupported,
            ),
            scan_params_ok(*frame_info, pc, coding_params) && !samples_fit_spec(
                source@.len() as int,
                frame_info.width as int,
                frame_info.height as int,
                coded_components(*frame_info, coding_params),
            ) ==> r == Err::<usize, JpeglsError>(JpeglsError::InvalidData),
            r matches Ok(m) ==> final(writer).out().len() == old(writer).out().len() + m,
    {
        if !scan_params_ok_check(frame_info, &pc, &coding_params) {
            return Err(JpeglsError::ParameterValueNotSupported);
        }
        let width = frame_info.width as usize;
        let height = frame_info.height as usize;
        let comps: usize = if coding_params.interleave_mode == InterleaveMode::NotInterleaved {
            1
        } else {
            frame_info.component_count as usize
        };
        if !samples_fit(source.len(), width, height, comps) {
            return Err(JpeglsError::InvalidData);
        }
        let room = writer.destination.len() - writer.position;
        let mut buffer: Vec<u8> = Vec::new();
        let mut i: usize = 0;
        while i < room
            invariant
                i <= room,
                buffer@.len() == i,
            decreases room - i,
        {
            buffer.push(0);
            i = i + 1;
        }
        let n = {
            let mut scan_encoder = ScanEncoder::new(*frame_info, pc, coding_params, buffer.as_mut_slice());
            scan_encoder.encode_scan(source, width)?
        };
        let written = Self::append_prefix(writer, &buffer, n)?;
        Ok(written)
    }

    /// Appends the first `n` bytes of `buffer` to the writer.
    fn append_prefix(writer: &mut JpegStreamWriter, buffer: &Vec<u8>, n: usize) -> (r: Result<usize, JpeglsError>)
        requires
            old(writer).wf(),
        ensures
            final(writer).wf(),
            final(writer).cap() == old(writer).cap(),
            final(writer).out().len() >= old(writer).out().len(),
            final(writer).out().subrange(0, old(writer).out().len() as int) == old(writer).out(),
            r matches Ok(m) ==> m == n && final(writer).out() == old(writer).out() + buffer@.subrange(0, n as int),
            n > buffer@.len() ==> r == Err::<usize, JpeglsError>(JpeglsError::InvalidData),
            n <= buffer@.len() ==> (r is Ok <==> old(writer).out().len() + n <= old(writer).cap()),
            n <= buffer@.len() && r is Err ==> r == Err::<usize, JpeglsError>(JpeglsError::ParameterValueNotSupported),
    {
        if n > buffer.len() {
            return Err(JpeglsError::InvalidData);
        }
        let ghost o = writer.out();
        let mut k: usize = 0;
        while k < n
            invariant
                writer.wf(),
                writer.cap() == old(writer).cap(),
                o == old(writer).out(),
                k <= n <= buffer@.len(),
                writer.out() == o + buffer@.subrange(0, k as int),
                writer.out().len() == o.len() + k,
            decreases n - k,
        {
            writer.write_byte(buffer[k])?;
            assert(writer.out() =~= o + buffer@.subrange(0, k + 1));
            k = k + 1;
        }
        assert(writer.out().subrange(0, o.len() as int) =~= o);
        Ok(n)
    }
}

/// The little-endian 16-bit samples of `source`; `None` for an odd length.
fn le_u16_samples(source: &[u8]) -> (r: Option<Vec<u16>>)
    ensures
        r is None <==> source@.len() % 2 != 0,
        r matches Some(v) ==> v@.len() * 2 == source@.len() && forall|i: int|
            0 <= i < v@.len() ==> #[trigger] v@[i] == source@[2 * i] + 256 * source@[2 * i + 1],
{
    let len = source.len();
    if len % 2 != 0 {
        return None;
    }
    let half = len / 2;
    let mut samples: Vec<u16> = Vec::new();
    let mut i: usize = 0;
    while i < half
        invariant
            i <= half,
            half * 2 == len,
            len == source@.len(),
            samples@.len() == i,
            forall|k: int| 0 <= k < i ==> #[trigger] samples@[k] == source@[2 * k] + 256 * source@[2 * k + 1],
        decreases half - i,
    {
        let lo = source[2 * i] as u16;
        let hi = source[2 * i + 1] as u16;
        let v: u16 = lo | (hi << 8u16);
        assert(v == lo + 256 * hi) by (bit_vector)
            requires
                lo < 256,
                hi < 256,
                v == lo | (hi << 8u16),
        ;
        samples.push(v);
        i = i + 1;
    }
    Some(samples)
}

/// Whether the frame, preset and coding parameters are in the ranges the scan coder
/// takes.
fn scan_params_ok_check(fi: &FrameInfo, pc: &JpeglsPcParameters, cp: &CodingParameters) -> (r: bool)
    ensures
        r == scan_params_ok(*fi, *pc, *cp),
{
    2 <= fi.bits_per_sample && fi.bits_per_sample <= 16 && 1 <= fi.component_count && fi.component_count <= 255
        && 1 <= pc.maximum_sample_value && pc.maximum_sample_value <= 65535 && 0 <= cp.near_lossless
        && cp.near_lossless <= 255 && 0 <= pc.threshold1 && pc.threshold1 <= 65535 && 0 <= pc.threshold2
        && pc.threshold2 <= 65535 && 0 <= pc.threshold3 && pc.threshold3 <= 65535 && 2 <= pc.reset_value
        && pc.reset_value <= 65535 && 0 <= cp.limit && cp.limit <= 65535 && 0 <= cp.quantized_bits_per_sample
        && cp.quantized_bits_per_sample <= 16
}

/// Whether `len` samples hold `height` lines of `width * comps`, with room for the
/// line buffers, and a line has a pixel when there are lines.
fn samples_fit(len: usize, width: usize, height: usize, comps: usize) -> (r: bool)
    ensures
        r ==> len >= width * height * comps && (width + 1) * comps <= usize::MAX && (width >= 1 || height == 0),
        r == samples_fit_spec(len as int, width as int, height as int, comps as int),
{
    if width == 0 {
        return height == 0;
    }
    let w1 = match width.checked_add(1) {
        Some(v) => v,
        None => {
            return false;
        },
    };
    let line = match w1.checked_mul(comps) {
        Some(v) => v,
        None => {
            return false;
        },
    };
    assert((width + 1) * comps == width * comps + comps) by (nonlinear_arith);
    let row = line - comps;
    match row.checked_mul(height) {
        Some(total) => {
            assert(total == width * height * comps) by (nonlinear_arith)
                requires
                    total == (width * comps) * height,
            ;
            len >= total
        },
        None => {
            assert(row * height == width * height * comps) by (nonlinear_arith)
                requires
                    row == width * comps,
            ;
            false
        },
    }
}

} // verus!
