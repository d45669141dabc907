//! JPEG codestream reader: markers, segments and the bytes of a scan.
use crate::error::JpeglsError;
use crate::jpeg_marker_code::{
    is_marker_code, spec_marker_code, JpegMarkerCode, JPEG_MARKER_START_BYTE,
};
use crate::jpegls::coding_parameters::{CodingParameters, JpeglsPcParameters};
use crate::jpegls::{
    spec_interleave_mode_value, spec_spiff_color_space_value, spec_spiff_compression_type_value,
    spec_spiff_profile_id_value, spec_spiff_resolution_units_value, InterleaveMode, SpiffColorSpace,
    SpiffCompressionType, SpiffHeader, SpiffProfileId, SpiffResolutionUnits,
};
use crate::FrameInfo;
use vstd::prelude::*;

verus! {

/// A component of a JPEG 1 frame (SOF0) and its table selectors.
#[derive(Debug, Clone, Copy, PartialEq, Eq, Structural)]
pub struct JpegComponent {
    pub id: u8,
    pub h_samp_factor: u8,
    pub v_samp_factor: u8,
    pub quant_table_dest: u8,
    pub dc_table_dest: u8,
    pub ac_table_dest: u8,
    pub dc_pred: i16,
}

impl Default for JpegComponent {
    fn default() -> (r: Self)
        ensures
            r == (JpegComponent {
                id: 0,
                h_samp_factor: 0,
                v_samp_factor: 0,
                quant_table_dest: 0,
                dc_table_dest: 0,
                ac_table_dest: 0,
                dc_pred: 0,
            }),
    {
        JpegComponent {
            id: 0,
            h_samp_factor: 0,
            v_samp_factor: 0,
            quant_table_dest: 0,
            dc_table_dest: 0,
            ac_table_dest: 0,
            dc_pred: 0,
        }
    }
}

/// The code lengths and values of a Huffman table as a DHT segment defines them.
#[derive(Debug, Clone, PartialEq, Eq)]
pub struct HuffmanTable {
    /// Number of codes of each length 1..=16.
    pub lengths: [u8; 16],
    /// The symbols, in order of increasing code length.
    pub values: Vec<u8>,
}

/// Where the reader stands in the codestream.
#[derive(Debug, Clone, Copy, PartialEq, Eq, Structural)]
pub enum JpegStreamReaderState {
    BeforeStartOfImage,
    HeaderSection,
    ScanSection,
    EndOfImage,
}

/// Big-endian 16-bit value at `p`.
pub open spec fn be_u16_at(data: Seq<u8>, p: int) -> int {
    data[p] * 256 + data[p + 1]
}

/// Big-endian 32-bit value at `p`.
pub open spec fn be_u32_at(data: Seq<u8>, p: int) -> int {
    data[p] * 16777216 + data[p + 1] * 65536 + data[p + 2] * 256 + data[p + 3]
}

/// Reads markers and segments of a JPEG, JPEG-LS or JPEG 2000 codestream.
pub struct JpegStreamReader<'a> {
    pub source: &'a [u8],
    pub position: usize,
    pub state: JpegStreamReaderState,
    pub frame_info: FrameInfo,
    pub parameters: CodingParameters,
    pub preset_coding_parameters: JpeglsPcParameters,
    pub spiff_header: Option<SpiffHeader>,
    pub quantization_tables: [[u8; 64]; 4],
    pub huffman_tables_dc: [Option<HuffmanTable>; 4],
    pub huffman_tables_ac: [Option<HuffmanTable>; 4],
    pub components: Vec<JpegComponent>,
    pub restart_interval: u16,
    pub scan_component_indices: Vec<usize>,
}

impl<'a> JpegStreamReader<'a> {
    /// The bytes of the codestream.
    pub open spec fn data(&self) -> Seq<u8> {
        self.source@
    }

    /// The read position.
    pub open spec fn pos(&self) -> int {
        self.position as int
    }

    /// The reader's state.
    pub open spec fn spec_state(&self) -> JpegStreamReaderState {
        self.state
    }

    /// The frame information read so far.
    pub open spec fn spec_frame_info(&self) -> FrameInfo {
        self.frame_info
    }

    /// The coding parameters read so far.
    pub open spec fn spec_parameters(&self) -> CodingParameters {
        self.parameters
    }

    /// The preset coding parameters read so far.
    pub open spec fn spec_preset(&self) -> JpeglsPcParameters {
        self.preset_coding_parameters
    }

    /// The SPIFF header read so far.
    pub open spec fn spec_spiff(&self) -> Option<SpiffHeader> {
        self.spiff_header
    }

    /// Every reader has a source no longer than a slice can be.
    pub open spec fn wf(&self) -> bool {
        self.data().len() <= isize::MAX
    }

    /// `other` equals `self` but for the read position.
    pub open spec fn same_but_pos(&self, other: &Self) -> bool {
        &&& self.data() == other.data()
        &&& self.spec_state() == other.spec_state()
        &&& self.spec_frame_info() == other.spec_frame_info()
        &&& self.spec_parameters() == other.spec_parameters()
        &&& self.spec_preset() == other.spec_preset()
        &&& self.spec_spiff() == other.spec_spiff()
        &&& self.quantization_tables == other.quantization_tables
        &&& self.huffman_tables_dc == other.huffman_tables_dc
        &&& self.huffman_tables_ac == other.huffman_tables_ac
        &&& self.components@ == other.components@
        &&& self.restart_interval == other.restart_interval
        &&& self.scan_component_indices@ == other.scan_component_indices@
    }

    /// A reader at the start of `source`, before the start of image, with empty tables.
    pub fn new(source: &'a [u8]) -> (r: Self)
        requires
            source@.len() <= isize::MAX,
        ensures
            r.wf(),
            r.data() == source@,
            r.pos() == 0,
            r.spec_state() == JpegStreamReaderState::BeforeStartOfImage,
            r.spec_frame_info() == (FrameInfo { width: 0, height: 0, bits_per_sample: 0, component_count: 0 }),
            r.spec_parameters() == CodingParameters::spec_default(),
            r.spec_preset() == JpeglsPcParameters::spec_default(),
            r.spec_spiff() is None,
            forall|t: int, i: int| 0 <= t < 4 && 0 <= i < 64 ==> #[trigger] r.quantization_tables@[t]@[i] == 0,
            forall|t: int| 0 <= t < 4 ==> #[trigger] r.huffman_tables_dc@[t] is None && r.huffman_tables_ac@[t] is None,
            r.components@.len() == 0,
            r.restart_interval == 0,
            r.scan_component_indices@.len() == 0,
    {
        Self {
            source,
            position: 0,
            state: JpegStreamReaderState::BeforeStartOfImage,
            frame_info: FrameInfo::default(),
            parameters: CodingParameters::default(),
            preset_coding_parameters: JpeglsPcParameters::default(),
            spiff_header: None,
            quantization_tables: [[0u8; 64]; 4],
            huffman_tables_dc: [None, None, None, None],
            huffman_tables_ac: [None, None, None, None],
            components: Vec::new(),
            restart_interval: 0,
            scan_component_indices: Vec::new(),
        }
    }

    /// The frame information.
    pub fn frame_info(&self) -> (r: FrameInfo)
        ensures
            r == self.spec_frame_info(),
    {
        self.frame_info
    }

    /// The coding parameters of the current scan.
    pub fn parameters(&self) -> (r: CodingParameters)
        ensures
            r == self.spec_parameters(),
    {
        self.parameters
    }

    /// The preset coding parameters.
    pub fn preset_coding_parameters(&self) -> (r: JpeglsPcParameters)
        ensures
            r == self.spec_preset(),
    {
        self.preset_coding_parameters
    }

    /// The SPIFF header, if one was read.
    pub fn spiff_header(&self) -> (r: Option<SpiffHeader>)
        ensures
            r == self.spec_spiff(),
    {
        self.spiff_header
    }

    /// The bytes from the read position on.
    pub fn remaining_data(&self) -> (r: &'a [u8])
        requires
            self.pos() <= self.data().len(),
        ensures
            r@ == self.data().subrange(self.pos(), self.data().len() as int),
    {
        let n = self.source.len();
        vstd::slice::slice_subrange(self.source, self.position, n)
    }

    /// The read position.
    pub fn position(&self) -> (r: usize)
        ensures
            r == self.pos(),
    {
        self.position
    }
}


/// Read position after a multi-byte read that failed: reads stop at the end of the data.
pub open spec fn pos_after_failed_read(pos: int, len: int) -> int {
    if pos < len { len } else { pos }
}

impl<'a> JpegStreamReader<'a> {
    /// Reads one byte.
    pub fn read_u8(&mut self) -> (r: Result<u8, JpeglsError>)
        ensures
            final(self).same_but_pos(old(self)),
            old(self).pos() < old(self).data().len() ==> r == Ok::<u8, JpeglsError>(old(self).data()[old(self).pos()])
                && final(self).pos() == old(self).pos() + 1,
            old(self).pos() >= old(self).data().len() ==> r == Err::<u8, JpeglsError>(JpeglsError::InvalidData)
                && final(self).pos() == old(self).pos(),
    {
        if self.position >= self.source.len() {
            return Err(JpeglsError::InvalidData);
        }
        let val = self.source[self.position];
        self.position = self.position + 1;
        Ok(val)
    }

    fn read_byte(&mut self) -> (r: Result<u8, JpeglsError>)
        ensures
            final(self).same_but_pos(old(self)),
            old(self).pos() < old(self).data().len() ==> r == Ok::<u8, JpeglsError>(old(self).data()[old(self).pos()])
                && final(self).pos() == old(self).pos() + 1,
            old(self).pos() >= old(self).data().len() ==> r == Err::<u8, JpeglsError>(JpeglsError::InvalidData)
                && final(self).pos() == old(self).pos(),
    {
        self.read_u8()
    }

    /// Reads a big-endian 16-bit value.
    pub fn read_u16(&mut self) -> (r: Result<u16, JpeglsError>)
        ensures
            final(self).same_but_pos(old(self)),
            old(self).pos() + 2 <= old(self).data().len() ==> r == Ok::<u16, JpeglsError>(
                be_u16_at(old(self).data(), old(self).pos()) as u16,
            ) && final(self).pos() == old(self).pos() + 2,
            old(self).pos() + 2 > old(self).data().len() ==> r == Err::<u16, JpeglsError>(JpeglsError::InvalidData)
                && final(self).pos() == pos_after_failed_read(old(self).pos(), old(self).data().len() as int),
    {
        let b1 = self.read_u8()? as u16;
        let b2 = self.read_u8()? as u16;
        assert((b1 << 8u16) | b2 == b1 * 256 + b2) by (bit_vector)
            requires
                b1 < 256,
                b2 < 256,
        ;
        Ok((b1 << 8u16) | b2)
    }

    /// Reads a big-endian 32-bit value.
    pub fn read_u32(&mut self) -> (r: Result<u32, JpeglsError>)
        ensures
            final(self).same_but_pos(old(self)),
            old(self).pos() + 4 <= old(self).data().len() ==> r == Ok::<u32, JpeglsError>(
                be_u32_at(old(self).data(), old(self).pos()) as u32,
            ) && final(self).pos() == old(self).pos() + 4,
            old(self).pos() + 4 > old(self).data().len() ==> r == Err::<u32, JpeglsError>(JpeglsError::InvalidData)
                && final(self).pos() == pos_after_failed_read(old(self).pos(), old(self).data().len() as int),
    {
        let b1 = self.read_u8()? as u32;
        let b2 = self.read_u8()? as u32;
        let b3 = self.read_u8()? as u32;
        let b4 = self.read_u8()? as u32;
        assert((b1 << 24u32) | (b2 << 16u32) | (b3 << 8u32) | b4 == b1 * 16777216 + b2 * 65536 + b3 * 256 + b4)
            by (bit_vector)
            requires
                b1 < 256,
                b2 < 256,
                b3 < 256,
                b4 < 256,
        ;
        Ok((b1 << 24u32) | (b2 << 16u32) | (b3 << 8u32) | b4)
    }

    /// The marker at the read position, without consuming it.
    pub fn peek_marker(&self) -> (r: Result<JpegMarkerCode, JpeglsError>)
        ensures
            r is Ok <==> (self.pos() + 2 <= self.data().len() && self.data()[self.pos()] == 0xFF
                && is_marker_code(self.data()[self.pos() + 1])),
            r matches Ok(m) ==> spec_marker_code(m) == self.data()[self.pos() + 1],
            r matches Err(e) ==> e == JpeglsError::InvalidData,
    {
        if self.position >= self.source.len() || self.source.len() - self.position < 2 {
            return Err(JpeglsError::InvalidData);
        }
        if self.source[self.position] != JPEG_MARKER_START_BYTE {
            return Err(JpeglsError::InvalidData);
        }
        JpegMarkerCode::try_from(self.source[self.position + 1])
    }

    /// Reads a marker: `0xFF` and a known marker code.
    pub fn read_marker(&mut self) -> (r: Result<JpegMarkerCode, JpeglsError>)
        ensures
            final(self).same_but_pos(old(self)),
            final(self).pos() >= old(self).pos(),
            r is Ok <==> (old(self).pos() + 2 <= old(self).data().len() && old(self).data()[old(self).pos()]
                == 0xFF && is_marker_code(old(self).data()[old(self).pos() + 1])),
            r matches Ok(m) ==> spec_marker_code(m) == old(self).data()[old(self).pos() + 1] && final(self).pos()
                == old(self).pos() + 2,
            r matches Err(e) ==> e == JpeglsError::InvalidData,
    {
        if self.read_u8()? != JPEG_MARKER_START_BYTE {
            return Err(JpeglsError::InvalidData);
        }
        let marker_byte = self.read_u8()?;
        JpegMarkerCode::try_from(marker_byte)
    }

    /// Moves the read position forward.
    pub fn advance(&mut self, count: usize)
        requires
            old(self).pos() + count <= usize::MAX,
        ensures
            final(self).same_but_pos(old(self)),
            final(self).pos() == old(self).pos() + count,
    {
        self.position = self.position + count;
    }

    /// Byte alignment: the reader reads whole bytes, so nothing changes.
    pub fn align_to_byte(&mut self)
        ensures
            *final(self) == *old(self),
    {
    }

    /// Skips a segment: reads its length field (at least 2) and moves past the segment.
    pub fn skip_segment(&mut self) -> (r: Result<(), JpeglsError>)
        requires
            old(self).wf(),
        ensures
            final(self).same_but_pos(old(self)),
            final(self).pos() >= old(self).pos(),
            r is Ok <==> (old(self).pos() + 2 <= old(self).data().len() && be_u16_at(old(self).data(), old(self).pos())
                >= 2),
            r is Ok ==> final(self).pos() == old(self).pos() + be_u16_at(old(self).data(), old(self).pos()),
            r matches Err(e) ==> e == JpeglsError::InvalidData,
    {
        let length = self.read_u16()?;
        if length < 2 {
            return Err(JpeglsError::InvalidData);
        }
        self.position = self.position + (length as usize - 2);
        Ok(())
    }
}

/// `other` equals `self` but for the read position, the state, the frame information and the coding parameters.
pub open spec fn same_tables<'a>(x: &JpegStreamReader<'a>, y: &JpegStreamReader<'a>) -> bool {
    &&& x.data() == y.data()
    &&& x.spec_preset() == y.spec_preset()
    &&& x.spec_spiff() == y.spec_spiff()
    &&& x.quantization_tables == y.quantization_tables
    &&& x.huffman_tables_dc == y.huffman_tables_dc
    &&& x.huffman_tables_ac == y.huffman_tables_ac
    &&& x.restart_interval == y.restart_interval
}

impl<'a> JpegStreamReader<'a> {
    fn read_start_of_image(&mut self) -> (r: Result<(), JpeglsError>)
        ensures
            same_tables(final(self), old(self)),
            final(self).spec_frame_info() == old(self).spec_frame_info(),
            final(self).components@ == old(self).components@,
            final(self).pos() >= old(self).pos(),
            r is Ok <==> (old(self).pos() + 2 <= old(self).data().len() && old(self).data()[old(self).pos()] == 0xFF
                && old(self).data()[old(self).pos() + 1] == 0xD8),
            r is Ok ==> final(self).pos() == old(self).pos() + 2 && final(self).spec_state()
                == JpegStreamReaderState::HeaderSection,
            r matches Err(e) ==> e == JpeglsError::InvalidData,
    {
        let m = self.read_marker();
        proof {
            if old(self).pos() + 2 <= old(self).data().len() && old(self).data()[old(self).pos()] == 0xFF
                && old(self).data()[old(self).pos() + 1] == 0xD8 {
                assert(spec_marker_code(JpegMarkerCode::StartOfImage) == 0xD8);
            }
        }
        match m {
            Ok(JpegMarkerCode::StartOfImage) => {},
            _ => {
                return Err(JpeglsError::InvalidData);
            },
        }
        self.state = JpegStreamReaderState::HeaderSection;
        Ok(())
    }

    fn read_start_of_frame_segment(&mut self) -> (r: Result<(), JpeglsError>)
        ensures
            same_tables(final(self), old(self)),
            final(self).spec_state() == old(self).spec_state(),
            final(self).spec_parameters() == old(self).spec_parameters(),
            final(self).components@ == old(self).components@,
            final(self).pos() >= old(self).pos(),
            ({
                let d = old(self).data();
                let p = old(self).pos();
                r is Ok <==> (p + 8 <= d.len() && p + 8 + 3 * d[p + 7] <= d.len())
            }),
            r is Ok ==> ({
                let d = old(self).data();
                let p = old(self).pos();
                &&& final(self).spec_frame_info() == FrameInfo {
                    bits_per_sample: d[p + 2] as i32,
                    height: be_u16_at(d, p + 3) as u32,
                    width: be_u16_at(d, p + 5) as u32,
                    component_count: d[p + 7] as i32,
                }
                &&& final(self).pos() == p + 8 + 3 * d[p + 7]
            }),
            r matches Err(e) ==> e == JpeglsError::InvalidData,
    {
        let _length = self.read_u16()?;
        self.frame_info.bits_per_sample = self.read_u8()? as i32;
        self.frame_info.height = self.read_u16()? as u32;
        self.frame_info.width = self.read_u16()? as u32;
        self.frame_info.component_count = self.read_u8()? as i32;
        let count = self.frame_info.component_count;
        let ghost p0 = self.pos();
        let mut i: i32 = 0;
        while i < count
            invariant
                0 <= i <= count,
                count == self.frame_info.component_count,
                0 <= count <= 255,
                self.pos() == p0 + 3 * i,
                p0 == old(self).pos() + 8,
                same_tables(self, old(self)),
                self.spec_state() == old(self).spec_state(),
                self.spec_parameters() == old(self).spec_parameters(),
                self.components@ == old(self).components@,
                self.spec_frame_info().bits_per_sample == old(self).data()[old(self).pos() + 2] as i32,
                self.spec_frame_info().height == be_u16_at(old(self).data(), old(self).pos() + 3) as u32,
                self.spec_frame_info().width == be_u16_at(old(self).data(), old(self).pos() + 5) as u32,
                count == old(self).data()[old(self).pos() + 7] as i32,
                p0 + 3 * i <= old(self).data().len(),
            decreases count - i,
        {
            let _id = self.read_u8()?;
            let _sampling = self.read_u8()?;
            let _tq = self.read_u8()?;
            i = i + 1;
        }
        Ok(())
    }

    fn read_jpegls_preset_parameters_segment(&mut self) -> (r: Result<(), JpeglsError>)
        requires
            old(self).wf(),
        ensures
            final(self).data() == old(self).data(),
            final(self).spec_state() == old(self).spec_state(),
            final(self).spec_frame_info() == old(self).spec_frame_info(),
            final(self).spec_parameters() == old(self).spec_parameters(),
            final(self).spec_spiff() == old(self).spec_spiff(),
            final(self).quantization_tables == old(self).quantization_tables,
            final(self).huffman_tables_dc == old(self).huffman_tables_dc,
            final(self).huffman_tables_ac == old(self).huffman_tables_ac,
            final(self).restart_interval == old(self).restart_interval,
            final(self).components@ == old(self).components@,
            final(self).pos() >= old(self).pos(),
            ({
                let d = old(self).data();
                let p = old(self).pos();
                r is Ok <==> (p + 3 <= d.len() && if d[p + 2] == 1 { p + 13 <= d.len() } else { be_u16_at(d, p) >= 3 })
            }),
            r is Ok ==> ({
                let d = old(self).data();
                let p = old(self).pos();
                if d[p + 2] == 1 {
                    &&& final(self).spec_preset() == JpeglsPcParameters {
                        maximum_sample_value: be_u16_at(d, p + 3) as i32,
                        threshold1: be_u16_at(d, p + 5) as i32,
                        threshold2: be_u16_at(d, p + 7) as i32,
                        threshold3: be_u16_at(d, p + 9) as i32,
                        reset_value: be_u16_at(d, p + 11) as i32,
                    }
                    &&& final(self).pos() == p + 13
                } else {
                    &&& final(self).spec_preset() == old(self).spec_preset()
                    &&& final(self).pos() == p + be_u16_at(d, p)
                }
            }),
            r matches Err(e) ==> e == JpeglsError::InvalidData,
    {
        let length = self.read_u16()?;
        let param_type = self.read_u8()?;
        if param_type == 1 {
            self.preset_coding_parameters.maximum_sample_value = self.read_u16()? as i32;
            self.preset_coding_parameters.threshold1 = self.read_u16()? as i32;
            self.preset_coding_parameters.threshold2 = self.read_u16()? as i32;
            self.preset_coding_parameters.threshold3 = self.read_u16()? as i32;
            self.preset_coding_parameters.reset_value = self.read_u16()? as i32;
        } else {
            if length < 3 {
                return Err(JpeglsError::InvalidData);
            }
            self.position = self.position + (length as usize - 3);
        }
        Ok(())
    }

    /// Reads the SOS segment of a JPEG-LS scan: NEAR and the interleave mode.
    pub fn read_start_of_scan_segment_jpegls(&mut self) -> (r: Result<(), JpeglsError>)
        ensures
            same_tables(final(self), old(self)),
            final(self).spec_frame_info() == old(self).spec_frame_info(),
            final(self).components@ == old(self).components@,
            final(self).pos() >= old(self).pos(),
            ({
                let d = old(self).data();
                let p = old(self).pos();
                r is Ok <==> (p + 5 <= d.len() && d[p] == 0xFF && d[p + 1] == 0xDA && p + 8 + 2 * d[p + 4] <= d.len()
                    && d[p + 6 + 2 * d[p + 4]] <= 2)
            }),
            r is Ok ==> ({
                let d = old(self).data();
                let p = old(self).pos();
                let q = p + 5 + 2 * d[p + 4];
                &&& final(self).spec_parameters() == CodingParameters {
                    near_lossless: d[q] as i32,
                    interleave_mode: final(self).spec_parameters().interleave_mode,
                    ..old(self).spec_parameters()
                }
                &&& spec_interleave_mode_value(final(self).spec_parameters().interleave_mode) == d[q + 1]
                &&& final(self).spec_state() == JpegStreamReaderState::ScanSection
                &&& final(self).pos() == q + 3
            }),
            r matches Err(e) ==> e == JpeglsError::InvalidData,
    {
        let m = self.read_marker();
        proof {
            let d = old(self).data();
            let p = old(self).pos();
            if p + 2 <= d.len() && d[p] == 0xFF && d[p + 1] == 0xDA {
                assert(spec_marker_code(JpegMarkerCode::StartOfScan) == 0xDA);
            }
        }
        match m {
            Ok(JpegMarkerCode::StartOfScan) => {},
            _ => {
                return Err(JpeglsError::InvalidData);
            },
        }
        let _length = self.read_u16()?;
        let components_in_scan = self.read_u8()? as i32;
        let ghost p0 = self.pos();
        let mut i: i32 = 0;
        while i < components_in_scan
            invariant
                0 <= i <= components_in_scan <= 255,
                components_in_scan == old(self).data()[old(self).pos() + 4],
                p0 == old(self).pos() + 5,
                self.pos() == p0 + 2 * i,
                p0 + 2 * i <= old(self).data().len(),
                same_tables(self, old(self)),
                self.spec_frame_info() == old(self).spec_frame_info(),
                self.spec_parameters() == old(self).spec_parameters(),
                self.components@ == old(self).components@,
            decreases components_in_scan - i,
        {
            let _id = self.read_u8()?;
            let _mapping = self.read_u8()?;
            i = i + 1;
        }
        let near = self.read_u8()? as i32;
        let im = self.read_u8()?;
        proof {
            assert(spec_interleave_mode_value(InterleaveMode::NotInterleaved) == 0);
            assert(spec_interleave_mode_value(InterleaveMode::Line) == 1);
            assert(spec_interleave_mode_value(InterleaveMode::Sample) == 2);
        }
        let mode = InterleaveMode::try_from(im)?;
        let _point_transform = self.read_u8()?;
        self.parameters.near_lossless = near;
        self.parameters.interleave_mode = mode;
        self.state = JpegStreamReaderState::ScanSection;
        Ok(())
    }

    /// Reads a DRI segment: length 4 and the restart interval.
    pub fn read_dri_segment(&mut self) -> (r: Result<(), JpeglsError>)
        ensures
            final(self).data() == old(self).data(),
            final(self).spec_state() == old(self).spec_state(),
            final(self).spec_frame_info() == old(self).spec_frame_info(),
            final(self).spec_parameters() == old(self).spec_parameters(),
            final(self).spec_preset() == old(self).spec_preset(),
            final(self).spec_spiff() == old(self).spec_spiff(),
            final(self).quantization_tables == old(self).quantization_tables,
            final(self).huffman_tables_dc == old(self).huffman_tables_dc,
            final(self).huffman_tables_ac == old(self).huffman_tables_ac,
            final(self).components@ == old(self).components@,
            final(self).pos() >= old(self).pos(),
            ({
                let d = old(self).data();
                let p = old(self).pos();
                r is Ok <==> (p + 4 <= d.len() && be_u16_at(d, p) == 4)
            }),
            r is Ok ==> final(self).restart_interval == be_u16_at(old(self).data(), old(self).pos() + 2)
                && final(self).pos() == old(self).pos() + 4,
            r matches Err(e) ==> e == JpeglsError::InvalidData,
    {
        let length = self.read_u16()?;
        if length != 4 {
            return Err(JpeglsError::InvalidData);
        }
        self.restart_interval = self.read_u16()?;
        Ok(())
    }
}

/// The `i`-th component of an SOF0 segment whose length field is at `p`.
pub open spec fn sof0_component(d: Seq<u8>, p: int, i: int) -> JpegComponent {
    let q = p + 8 + 3 * i;
    JpegComponent {
        id: d[q],
        h_samp_factor: (d[q + 1] / 16) as u8,
        v_samp_factor: (d[q + 1] % 16) as u8,
        quant_table_dest: d[q + 2],
        dc_table_dest: 0,
        ac_table_dest: 0,
        dc_pred: 0,
    }
}

/// The six identifier bytes of a SPIFF header: "SPIFF" and a zero byte.
pub open spec fn is_spiff_identifier(d: Seq<u8>, q: int) -> bool {
    d[q] == 0x53 && d[q + 1] == 0x50 && d[q + 2] == 0x49 && d[q + 3] == 0x46 && d[q + 4] == 0x46 && d[q + 5] == 0
}

impl<'a> JpegStreamReader<'a> {
    fn read_sof0_segment(&mut self) -> (r: Result<(), JpeglsError>)
        ensures
            same_tables(final(self), old(self)),
            final(self).spec_state() == old(self).spec_state(),
            final(self).spec_parameters() == old(self).spec_parameters(),
            final(self).pos() >= old(self).pos(),
            ({
                let d = old(self).data();
                let p = old(self).pos();
                r is Ok <==> (p + 8 <= d.len() && p + 8 + 3 * d[p + 7] <= d.len())
            }),
            r is Ok ==> ({
                let d = old(self).data();
                let p = old(self).pos();
                &&& final(self).spec_frame_info() == FrameInfo {
                    bits_per_sample: d[p + 2] as i32,
                    height: be_u16_at(d, p + 3) as u32,
                    width: be_u16_at(d, p + 5) as u32,
                    component_count: d[p + 7] as i32,
                }
                &&& final(self).pos() == p + 8 + 3 * d[p + 7]
                &&& final(self).components@.len() == d[p + 7]
                &&& forall|i: int| 0 <= i < d[p + 7] ==> #[trigger] final(self).components@[i] == sof0_component(d, p, i)
            }),
            r matches Err(e) ==> e == JpeglsError::InvalidData,
    {
        let _length = self.read_u16()?;
        self.frame_info.bits_per_sample = self.read_u8()? as i32;
        self.frame_info.height = self.read_u16()? as u32;
        self.frame_info.width = self.read_u16()? as u32;
        self.frame_info.component_count = self.read_u8()? as i32;
        self.components.clear();
        let count = self.frame_info.component_count;
        let ghost p0 = self.pos();
        let mut i: i32 = 0;
        while i < count
            invariant
                0 <= i <= count,
                count == self.frame_info.component_count,
                0 <= count <= 255,
                self.pos() == p0 + 3 * i,
                p0 == old(self).pos() + 8,
                same_tables(self, old(self)),
                self.spec_state() == old(self).spec_state(),
                self.spec_parameters() == old(self).spec_parameters(),
                self.spec_frame_info().bits_per_sample == old(self).data()[old(self).pos() + 2] as i32,
                self.spec_frame_info().height == be_u16_at(old(self).data(), old(self).pos() + 3) as u32,
                self.spec_frame_info().width == be_u16_at(old(self).data(), old(self).pos() + 5) as u32,
                count == old(self).data()[old(self).pos() + 7] as i32,
                p0 + 3 * i <= old(self).data().len(),
                self.components@.len() == i,
                forall|k: int| 0 <= k < i ==> #[trigger] self.components@[k] == sof0_component(old(self).data(), old(self).pos(), k),
            decreases count - i,
        {
            let id = self.read_u8()?;
            let sampling = self.read_u8()?;
            let tq = self.read_u8()?;
            assert(sampling >> 4u8 == sampling / 16 && sampling & 0x0Fu8 == sampling % 16) by (bit_vector);
            self.components.push(
                JpegComponent {
                    id,
                    h_samp_factor: sampling >> 4u8,
                    v_samp_factor: sampling & 0x0Fu8,
                    quant_table_dest: tq,
                    dc_table_dest: 0,
                    ac_table_dest: 0,
                    dc_pred: 0,
                },
            );
            i = i + 1;
        }
        Ok(())
    }

    /// Reads the SOS segment of a JPEG 1 scan: the table selectors of the components in the scan.
    pub fn read_start_of_scan_segment_jpeg1(&mut self) -> (r: Result<(), JpeglsError>)
        ensures
            same_tables(final(self), old(self)),
            final(self).spec_frame_info() == old(self).spec_frame_info(),
            final(self).spec_parameters() == old(self).spec_parameters(),
            final(self).components@.len() == old(self).components@.len(),
            forall|i: int| 0 <= i < old(self).components@.len() ==> #[trigger] final(self).components@[i].id
                == old(self).components@[i].id,
            final(self).pos() >= old(self).pos(),
            ({
                let d = old(self).data();
                let p = old(self).pos();
                r is Ok <==> (p + 5 <= d.len() && d[p] == 0xFF && d[p + 1] == 0xDA && p + 8 + 2 * d[p + 4] <= d.len())
            }),
            r is Ok ==> ({
                let d = old(self).data();
                let p = old(self).pos();
                &&& final(self).spec_state() == JpegStreamReaderState::ScanSection
                &&& final(self).pos() == p + 8 + 2 * d[p + 4]
                &&& final(self).scan_component_indices@.len() <= d[p + 4]
                &&& forall|k: int| 0 <= k < final(self).scan_component_indices@.len() ==> #[trigger]
                    final(self).scan_component_indices@[k] < final(self).components@.len()
            }),
            r matches Err(e) ==> e == JpeglsError::InvalidData,
    {
        let m = self.read_marker();
        proof {
            let d = old(self).data();
            let p = old(self).pos();
            if p + 2 <= d.len() && d[p] == 0xFF && d[p + 1] == 0xDA {
                assert(spec_marker_code(JpegMarkerCode::StartOfScan) == 0xDA);
            }
        }
        match m {
            Ok(JpegMarkerCode::StartOfScan) => {},
            _ => {
                return Err(JpeglsError::InvalidData);
            },
        }
        let _length = self.read_u16()?;
        let components_in_scan = self.read_u8()? as i32;
        self.scan_component_indices.clear();
        let ghost p0 = self.pos();
        let mut i: i32 = 0;
        while i < components_in_scan
            invariant
                0 <= i <= components_in_scan <= 255,
                components_in_scan == old(self).data()[old(self).pos() + 4],
                p0 == old(self).pos() + 5,
                self.pos() == p0 + 2 * i,
                p0 + 2 * i <= old(self).data().len(),
                same_tables(self, old(self)),
                self.spec_frame_info() == old(self).spec_frame_info(),
                self.spec_parameters() == old(self).spec_parameters(),
                self.components@.len() == old(self).components@.len(),
                forall|c: int| 0 <= c < old(self).components@.len() ==> #[trigger] self.components@[c].id
                    == old(self).components@[c].id,
                self.scan_component_indices@.len() <= i,
                forall|k: int| 0 <= k < self.scan_component_indices@.len() ==> #[trigger]
                    self.scan_component_indices@[k] < self.components@.len(),
            decreases components_in_scan - i,
        {
            let id = self.read_u8()?;
            let selector = self.read_u8()?;
            let dc_dest = selector >> 4u8;
            let ac_dest = selector & 0x0Fu8;
            let n = self.components.len();
            let mut idx: usize = 0;
            while idx < n
                invariant_except_break
                    self.scan_component_indices@.len() <= i,
                invariant
                    n == self.components@.len(),
                    idx <= n,
                    0 <= i < components_in_scan,
                    self.pos() == p0 + 2 * i + 2,
                    same_tables(self, old(self)),
                    self.spec_frame_info() == old(self).spec_frame_info(),
                    self.spec_parameters() == old(self).spec_parameters(),
                    forall|k: int| 0 <= k < self.scan_component_indices@.len() ==> #[trigger]
                        self.scan_component_indices@[k] < self.components@.len(),
                    self.components@.len() == old(self).components@.len(),
                    forall|c: int| 0 <= c < old(self).components@.len() ==> #[trigger] self.components@[c].id
                        == old(self).components@[c].id,
                ensures
                    self.scan_component_indices@.len() <= i + 1,
                decreases n - idx,
            {
                if self.components[idx].id == id {
                    let mut comp = self.components[idx];
                    comp.dc_table_dest = dc_dest;
                    comp.ac_table_dest = ac_dest;
                    self.components.set(idx, comp);
                    self.scan_component_indices.push(idx);
                    break;
                }
                idx = idx + 1;
            }
            i = i + 1;
        }
        let _ss = self.read_u8()?;
        let _se = self.read_u8()?;
        let _ah_al = self.read_u8()?;
        self.state = JpegStreamReaderState::ScanSection;
        Ok(())
    }
}

/// The SPIFF header in an APP8 segment whose length field is at `p`, when its bytes name valid values.
pub open spec fn spec_spiff_at(d: Seq<u8>, p: int, h: SpiffHeader) -> bool {
    &&& spec_spiff_profile_id_value(h.profile_id) == d[p + 10]
    &&& h.component_count == d[p + 11] as i32
    &&& h.height == be_u32_at(d, p + 12) as u32
    &&& h.width == be_u32_at(d, p + 16) as u32
    &&& spec_spiff_color_space_value(h.color_space) == d[p + 20]
    &&& h.bits_per_sample == d[p + 21] as i32
    &&& spec_spiff_compression_type_value(h.compression_type) == d[p + 22]
    &&& spec_spiff_resolution_units_value(h.resolution_units) == d[p + 23]
    &&& h.vertical_resolution == be_u32_at(d, p + 24) as u32
    &&& h.horizontal_resolution == be_u32_at(d, p + 28) as u32
}

/// The table id of the `k`-th table of a DQT segment whose first table starts at `base`.
pub open spec fn dqt_entry_id(d: Seq<u8>, base: int, k: int) -> u8 {
    d[base + 65 * k]
}

/// The 64 values of the `k`-th table of a DQT segment whose first table starts at `base`.
pub open spec fn dqt_entry_table(d: Seq<u8>, base: int, k: int) -> Seq<u8> {
    d.subrange(base + 1 + 65 * k, base + 65 + 65 * k)
}

impl<'a> JpegStreamReader<'a> {
    fn read_spiff_header_segment(&mut self) -> (r: Result<Option<SpiffHeader>, JpeglsError>)
        requires
            old(self).wf(),
        ensures
            final(self).same_but_pos(old(self)),
            final(self).pos() >= old(self).pos(),
            ({
                let d = old(self).data();
                let p = old(self).pos();
                &&& r matches Ok(Some(h)) ==> p + 32 <= d.len() && be_u16_at(d, p) >= 32 && is_spiff_identifier(d, p + 2)
                    && spec_spiff_at(d, p, h) && final(self).pos() == p + 32
                &&& r == Ok::<Option<SpiffHeader>, JpeglsError>(None) ==> p + 2 <= d.len() && final(self).pos() == p + be_u16_at(d, p)
                    && (be_u16_at(d, p) < 32 || !is_spiff_identifier(d, p + 2))
                &&& r matches Err(e) ==> e == JpeglsError::InvalidData
            }),
    {
        let length = self.read_u16()? as usize;
        if length < 32 {
            if length < 2 {
                return Err(JpeglsError::InvalidData);
            }
            self.position = self.position + (length - 2);
            return Ok(None);
        }
        let ghost p1 = self.pos();
        let mut identifier: [u8; 6] = [0u8; 6];
        let mut i: usize = 0;
        while i < 6
            invariant
                0 <= i <= 6,
                p1 == old(self).pos() + 2,
                self.pos() == p1 + i,
                p1 + i <= old(self).data().len(),
                self.same_but_pos(old(self)),
                forall|k: int| 0 <= k < i ==> identifier@[k] == old(self).data()[p1 + k],
            decreases 6 - i,
        {
            identifier[i] = self.read_u8()?;
            i = i + 1;
        }
        if !(identifier[0] == 0x53 && identifier[1] == 0x50 && identifier[2] == 0x49 && identifier[3] == 0x46
            && identifier[4] == 0x46 && identifier[5] == 0) {
            self.position = self.position + (length - 8);
            return Ok(None);
        }
        let _version_major = self.read_u8()?;
        let _version_minor = self.read_u8()?;
        let profile_id = self.read_u8()?;
        let component_count = self.read_u8()?;
        let height = self.read_u32()?;
        let width = self.read_u32()?;
        let color_space = self.read_u8()?;
        let bits_per_sample = self.read_u8()?;
        let compression_type = self.read_u8()?;
        let resolution_units = self.read_u8()?;
        let vertical_resolution = self.read_u32()?;
        let horizontal_resolution = self.read_u32()?;

        Ok(
            Some(
                SpiffHeader {
                    profile_id: SpiffProfileId::try_from(profile_id)?,
                    component_count: component_count as i32,
                    height,
                    width,
                    color_space: SpiffColorSpace::try_from(color_space)?,
                    bits_per_sample: bits_per_sample as i32,
                    compression_type: SpiffCompressionType::try_from(compression_type)?,
                    resolution_units: SpiffResolutionUnits::try_from(resolution_units)?,
                    vertical_resolution,
                    horizontal_resolution,
                },
            ),
        )
    }

    /// Reads a DQT segment: 8-bit quantization tables with ids below 4.
    pub fn read_dqt_segment(&mut self) -> (r: Result<(), JpeglsError>)
        ensures
            final(self).data() == old(self).data(),
            final(self).spec_state() == old(self).spec_state(),
            final(self).spec_frame_info() == old(self).spec_frame_info(),
            final(self).spec_parameters() == old(self).spec_parameters(),
            final(self).spec_preset() == old(self).spec_preset(),
            final(self).spec_spiff() == old(self).spec_spiff(),
            final(self).huffman_tables_dc == old(self).huffman_tables_dc,
            final(self).huffman_tables_ac == old(self).huffman_tables_ac,
            final(self).restart_interval == old(self).restart_interval,
            final(self).components@ == old(self).components@,
            final(self).pos() >= old(self).pos(),
            r matches Err(e) ==> e == JpeglsError::InvalidData || e == JpeglsError::ParameterValueNotSupported,
            r is Ok ==> ({
                let d = old(self).data();
                let p = old(self).pos();
                &&& p + 2 <= d.len()
                &&& be_u16_at(d, p) >= 2
                &&& final(self).pos() == p + 2 + 65 * ((be_u16_at(d, p) - 2) / 65)
                &&& forall|t: int| 0 <= t < 4 ==> #[trigger] final(self).quantization_tables@[t]
                    == old(self).quantization_tables@[t] || exists|k: int|
                    0 <= k < (be_u16_at(d, p) - 2) / 65 && dqt_entry_id(d, p + 2, k) == t
                    && final(self).quantization_tables@[t]@ == #[trigger] dqt_entry_table(d, p + 2, k)
            }),
    {
        let length = self.read_u16()? as usize;
        if length < 2 {
            return Err(JpeglsError::InvalidData);
        }
        let mut remaining = length - 2;
        let ghost p1 = self.pos();
        let ghost count: int = 0;
        while remaining >= 65
            invariant
                p1 == old(self).pos() + 2,
                p1 <= old(self).data().len(),
                length == be_u16_at(old(self).data(), old(self).pos()),
                length >= 2,
                remaining + 65 * count == length - 2,
                0 <= count,
                self.pos() == p1 + 65 * count,
                self.data() == old(self).data(),
                self.spec_state() == old(self).spec_state(),
                self.spec_frame_info() == old(self).spec_frame_info(),
                self.spec_parameters() == old(self).spec_parameters(),
                self.spec_preset() == old(self).spec_preset(),
                self.spec_spiff() == old(self).spec_spiff(),
                self.huffman_tables_dc == old(self).huffman_tables_dc,
                self.huffman_tables_ac == old(self).huffman_tables_ac,
                self.restart_interval == old(self).restart_interval,
                self.components@ == old(self).components@,
                forall|t: int| 0 <= t < 4 ==> #[trigger] self.quantization_tables@[t]
                    == old(self).quantization_tables@[t] || exists|k: int|
                    0 <= k < count && dqt_entry_id(old(self).data(), p1, k) == t
                    && self.quantization_tables@[t]@ == #[trigger] dqt_entry_table(old(self).data(), p1, k),
            decreases remaining,
        {
            let pq_tq = self.read_u8()?;
            let precision = pq_tq >> 4u8;
            let id = (pq_tq & 0x0Fu8) as usize;
            if id >= 4 || precision != 0 {
                return Err(JpeglsError::ParameterValueNotSupported);
            }
            assert(precision == 0 && id < 4 ==> pq_tq == id) by (bit_vector)
                requires
                    precision == pq_tq >> 4u8,
                    id == (pq_tq & 0x0Fu8) as usize,
            ;
            let ghost q = self.pos();
            let ghost tables_before = self.quantization_tables;
            assert(q == p1 + 65 * count + 1);
            let mut table: [u8; 64] = [0u8; 64];
            let mut i: usize = 0;
            while i < 64
                invariant
                    0 <= i <= 64,
                    self.pos() == q + i,
                    q + i <= old(self).data().len(),
                    forall|k: int| 0 <= k < i ==> table@[k] == old(self).data()[q + k],
                    self.data() == old(self).data(),
                    self.spec_state() == old(self).spec_state(),
                    self.spec_frame_info() == old(self).spec_frame_info(),
                    self.spec_parameters() == old(self).spec_parameters(),
                    self.spec_preset() == old(self).spec_preset(),
                    self.spec_spiff() == old(self).spec_spiff(),
                    self.huffman_tables_dc == old(self).huffman_tables_dc,
                    self.huffman_tables_ac == old(self).huffman_tables_ac,
                    self.restart_interval == old(self).restart_interval,
                    self.components@ == old(self).components@,
                    self.quantization_tables == tables_before,
                    q == p1 + 65 * count + 1,
                    p1 == old(self).pos() + 2,
                    0 <= count,
                decreases 64 - i,
            {
                table[i] = self.read_u8()?;
                i = i + 1;
            }
            let ghost before = self.quantization_tables;
            self.quantization_tables[id] = table;
            proof {
                assert(table@ =~= dqt_entry_table(old(self).data(), p1, count));
                assert forall|t: int| 0 <= t < 4 implies #[trigger] self.quantization_tables@[t]
                    == old(self).quantization_tables@[t] || exists|k: int|
                    0 <= k < count + 1 && dqt_entry_id(old(self).data(), p1, k) == t
                    && self.quantization_tables@[t]@ == #[trigger] dqt_entry_table(old(self).data(), p1, k) by {
                    if t == id {
                        assert(dqt_entry_id(old(self).data(), p1, count) == t);
                        assert(self.quantization_tables@[t]@ == dqt_entry_table(old(self).data(), p1, count));
                    } else {
                        assert(self.quantization_tables@[t] == before@[t]);
                    }
                }
                count = count + 1;
            }
            remaining = remaining - 65;
        }
        proof {
            assert((length - 2) / 65 == count) by (nonlinear_arith)
                requires
                    remaining + 65 * count == length - 2,
                    0 <= remaining < 65,
                    0 <= count,
            ;
        }
        Ok(())
    }
}

impl<'a> JpegStreamReader<'a> {
    /// Reads a DHT segment: Huffman tables (class 0 = DC, else AC) with ids below 4.
    pub fn read_dht_segment(&mut self) -> (r: Result<(), JpeglsError>)
        ensures
            final(self).data() == old(self).data(),
            final(self).spec_state() == old(self).spec_state(),
            final(self).spec_frame_info() == old(self).spec_frame_info(),
            final(self).spec_parameters() == old(self).spec_parameters(),
            final(self).spec_preset() == old(self).spec_preset(),
            final(self).spec_spiff() == old(self).spec_spiff(),
            final(self).quantization_tables == old(self).quantization_tables,
            final(self).restart_interval == old(self).restart_interval,
            final(self).components@ == old(self).components@,
            final(self).pos() >= old(self).pos(),
            r matches Err(e) ==> e == JpeglsError::InvalidData || e == JpeglsError::ParameterValueNotSupported,
            r is Ok ==> ({
                let d = old(self).data();
                let p = old(self).pos();
                &&& p + 2 <= d.len()
                &&& be_u16_at(d, p) >= 2
                &&& p + 2 <= final(self).pos() <= p + be_u16_at(d, p)
                &&& forall|t: int| 0 <= t < 4 ==> (#[trigger] final(self).huffman_tables_dc@[t] == old(self).huffman_tables_dc@[t]
                    || final(self).huffman_tables_dc@[t] is Some) && (final(self).huffman_tables_ac@[t]
                    == old(self).huffman_tables_ac@[t] || final(self).huffman_tables_ac@[t] is Some)
            }),
    {
        let length = self.read_u16()? as usize;
        if length < 2 {
            return Err(JpeglsError::InvalidData);
        }
        let mut remaining = length - 2;
        let ghost p1 = self.pos();
        while remaining >= 17
            invariant
                p1 == old(self).pos() + 2,
                p1 <= old(self).data().len(),
                length == be_u16_at(old(self).data(), old(self).pos()),
                length >= 2,
                p1 <= self.pos(),
                self.pos() + remaining == p1 + length - 2,
                self.data() == old(self).data(),
                self.spec_state() == old(self).spec_state(),
                self.spec_frame_info() == old(self).spec_frame_info(),
                self.spec_parameters() == old(self).spec_parameters(),
                self.spec_preset() == old(self).spec_preset(),
                self.spec_spiff() == old(self).spec_spiff(),
                self.quantization_tables == old(self).quantization_tables,
                self.restart_interval == old(self).restart_interval,
                self.components@ == old(self).components@,
                forall|t: int| 0 <= t < 4 ==> (#[trigger] self.huffman_tables_dc@[t] == old(self).huffman_tables_dc@[t]
                    || self.huffman_tables_dc@[t] is Some) && (self.huffman_tables_ac@[t]
                    == old(self).huffman_tables_ac@[t] || self.huffman_tables_ac@[t] is Some),
            decreases remaining,
        {
            let tc_th = self.read_u8()?;
            let class = tc_th >> 4u8;
            let id = (tc_th & 0x0Fu8) as usize;
            if id >= 4 {
                return Err(JpeglsError::ParameterValueNotSupported);
            }
            let ghost pos_before = self.pos();
            let mut lengths: [u8; 16] = [0u8; 16];
            let mut total_values: usize = 0;
            let mut i: usize = 0;
            while i < 16
                invariant
                    0 <= i <= 16,
                    total_values <= 255 * i,
                    self.pos() == pos_before + i,
                    p1 <= pos_before,
                    p1 == old(self).pos() + 2,
                    self.data() == old(self).data(),
                    self.spec_state() == old(self).spec_state(),
                    self.spec_frame_info() == old(self).spec_frame_info(),
                    self.spec_parameters() == old(self).spec_parameters(),
                    self.spec_preset() == old(self).spec_preset(),
                    self.spec_spiff() == old(self).spec_spiff(),
                    self.quantization_tables == old(self).quantization_tables,
                    self.restart_interval == old(self).restart_interval,
                    self.components@ == old(self).components@,
                    self.huffman_tables_dc == old(self).huffman_tables_dc || forall|t: int| 0 <= t < 4 ==> (#[trigger] self.huffman_tables_dc@[t] == old(self).huffman_tables_dc@[t]
                        || self.huffman_tables_dc@[t] is Some),
                    forall|t: int| 0 <= t < 4 ==> (#[trigger] self.huffman_tables_dc@[t] == old(self).huffman_tables_dc@[t]
                        || self.huffman_tables_dc@[t] is Some) && (self.huffman_tables_ac@[t]
                        == old(self).huffman_tables_ac@[t] || self.huffman_tables_ac@[t] is Some),
                decreases 16 - i,
            {
                let b = self.read_u8()?;
                lengths[i] = b;
                total_values = total_values + b as usize;
                i = i + 1;
            }
            remaining = remaining - 17;
            if remaining < total_values {
                return Err(JpeglsError::InvalidData);
            }
            let mut values: Vec<u8> = Vec::new();
            let mut k: usize = 0;
            while k < total_values
                invariant
                    0 <= k <= total_values,
                    self.pos() == pos_before + 16 + k,
                    p1 <= pos_before,
                    p1 == old(self).pos() + 2,
                    self.data() == old(self).data(),
                    self.spec_state() == old(self).spec_state(),
                    self.spec_frame_info() == old(self).spec_frame_info(),
                    self.spec_parameters() == old(self).spec_parameters(),
                    self.spec_preset() == old(self).spec_preset(),
                    self.spec_spiff() == old(self).spec_spiff(),
                    self.quantization_tables == old(self).quantization_tables,
                    self.restart_interval == old(self).restart_interval,
                    self.components@ == old(self).components@,
                    forall|t: int| 0 <= t < 4 ==> (#[trigger] self.huffman_tables_dc@[t] == old(self).huffman_tables_dc@[t]
                        || self.huffman_tables_dc@[t] is Some) && (self.huffman_tables_ac@[t]
                        == old(self).huffman_tables_ac@[t] || self.huffman_tables_ac@[t] is Some),
                decreases total_values - k,
            {
                let v = self.read_u8()?;
                values.push(v);
                k = k + 1;
            }
            remaining = remaining - total_values;
            let table = HuffmanTable { lengths, values };
            if class == 0 {
                self.huffman_tables_dc[id] = Some(table);
            } else {
                self.huffman_tables_ac[id] = Some(table);
            }
        }
        Ok(())
    }

    /// Reads the header of a codestream: the start of image and every segment up to the first
    /// start of scan, which is left unread.
    pub fn read_header(&mut self, spiff_header: &mut Option<SpiffHeader>) -> (r: Result<(), JpeglsError>)
        requires
            old(self).wf(),
        ensures
            final(self).wf(),
            final(self).data() == old(self).data(),
            r is Ok ==> ({
                let d = final(self).data();
                let p = final(self).pos();
                &&& final(self).spec_state() == JpegStreamReaderState::HeaderSection
                &&& p + 2 <= d.len()
                &&& d[p] == 0xFF
                &&& d[p + 1] == 0xDA
            }),
            r is Err ==> *final(spiff_header) == *old(spiff_header) || final(self).spec_spiff() == *final(spiff_header),
            r is Ok ==> *final(spiff_header) == *old(spiff_header) || final(self).spec_spiff() == *final(spiff_header),
            r matches Err(e) ==> e == JpeglsError::InvalidData || e == JpeglsError::ParameterValueNotSupported,
            ({
                let d = old(self).data();
                let p = old(self).pos();
                p + 2 <= d.len() && d[p] == 0xFF && d[p + 1] == 0xD8 && plain_header_scan(d, p + 2) is Some ==> r is Ok
                    && final(self).pos() == plain_header_scan(d, p + 2)->Some_0 && final(self).spec_frame_info()
                    == plain_header_frame(d, p + 2, old(self).spec_frame_info())
            }),
    {
        self.read_start_of_image()?;
        loop
            invariant
                self.wf(),
                self.data() == old(self).data(),
                self.spec_state() == JpegStreamReaderState::HeaderSection,
                *spiff_header == *old(spiff_header) || self.spec_spiff() == *spiff_header,
                plain_header_scan(old(self).data(), old(self).pos() + 2) is Some ==> plain_header_scan(
                    self.data(),
                    self.pos() as int,
                ) == plain_header_scan(old(self).data(), old(self).pos() + 2),
                plain_header_scan(old(self).data(), old(self).pos() + 2) is Some ==> plain_header_frame(
                    self.data(),
                    self.pos() as int,
                    self.spec_frame_info(),
                ) == plain_header_frame(old(self).data(), old(self).pos() + 2, old(self).spec_frame_info()),
            ensures
                self.wf(),
                self.data() == old(self).data(),
                self.spec_state() == JpegStreamReaderState::HeaderSection,
                *spiff_header == *old(spiff_header) || self.spec_spiff() == *spiff_header,
                self.pos() + 2 <= self.data().len(),
                self.data()[self.pos()] == 0xFF,
                self.data()[self.pos() + 1] == 0xDA,
                plain_header_scan(old(self).data(), old(self).pos() + 2) is Some ==> plain_header_scan(
                    old(self).data(),
                    old(self).pos() + 2,
                ) == Some(self.pos() as int),
                plain_header_scan(old(self).data(), old(self).pos() + 2) is Some ==> self.spec_frame_info()
                    == plain_header_frame(old(self).data(), old(self).pos() + 2, old(self).spec_frame_info()),
            decreases usize::MAX - self.pos(),
        {
            let ghost p0 = self.pos();
            let ghost d = self.data();
            let ghost walk = plain_header_scan(d, p0 as int);
            let ghost fi0 = self.spec_frame_info();
            let marker = self.read_marker()?;
            assert(walk is Some ==> walk == plain_header_scan(d, self.pos() as int - 2));
            match marker {
                JpegMarkerCode::StartOfFrameJpegls => {
                    self.read_start_of_frame_segment()?;
                },
                JpegMarkerCode::JpeglsPresetParameters => {
                    self.read_jpegls_preset_parameters_segment()?;
                },
                JpegMarkerCode::StartOfScan => {
                    assert(spec_marker_code(JpegMarkerCode::StartOfScan) == 0xDA);
                    assert(walk is Some ==> walk == Some(p0 as int));
                    assert(walk is Some ==> plain_header_frame(d, p0 as int, fi0) == fi0);
                    self.position = self.position - 2;
                    self.state = JpegStreamReaderState::HeaderSection;
                    break;
                },
                JpegMarkerCode::ApplicationData8 => {
                    let spiff = self.read_spiff_header_segment()?;
                    if spiff.is_some() {
                        *spiff_header = spiff;
                        self.spiff_header = spiff;
                    }
                },
                JpegMarkerCode::StartOfFrameBaseline => {
                    self.read_sof0_segment()?;
                },
                JpegMarkerCode::DefineQuantizationTable => {
                    self.read_dqt_segment()?;
                },
                JpegMarkerCode::DefineHuffmanTable => {
                    self.read_dht_segment()?;
                },
                JpegMarkerCode::DefineRestartInterval => {
                    self.read_dri_segment()?;
                },
                _ => {
                    self.skip_segment()?;
                },
            }
            assert(self.pos() > p0);
            proof {
                if walk is Some {
                    assert(spec_marker_code(marker) == d[p0 + 1]);
                    assert(walk == plain_header_scan(d, self.pos() as int));
                    assert(plain_header_frame(d, p0 as int, fi0) == plain_header_frame(
                        d,
                        self.pos() as int,
                        self.spec_frame_info(),
                    ));
                }
            }
        }
        Ok(())
    }
}

/// Where the segment of marker `m`, whose length field is at `q` of `d`, ends on the
/// walk of `plain_header_scan`: a frame header (SOF55 or SOF0) by its component count,
/// a preset parameters segment by its type, a restart interval at its fixed size, a
/// SPIFF header or a table not at all (`None`), any other segment by its length.
pub open spec fn plain_segment_end(d: Seq<u8>, q: int, m: u8) -> Option<int> {
    if m == 0xF7 || m == 0xC0 {
        if q + 8 <= d.len() && q + 8 + 3 * d[q + 7] <= d.len() {
            Some(q + 8 + 3 * d[q + 7])
        } else {
            None
        }
    } else if m == 0xF8 {
        if q + 3 <= d.len() && d[q + 2] == 1 && q + 13 <= d.len() {
            Some(q + 13)
        } else if q + 3 <= d.len() && d[q + 2] != 1 && be_u16_at(d, q) >= 3 {
            Some(q + be_u16_at(d, q))
        } else {
            None
        }
    } else if m == 0xDD {
        if q + 4 <= d.len() && be_u16_at(d, q) == 4 {
            Some(q + 4)
        } else {
            None
        }
    } else if m == 0xE8 || m == 0xDB || m == 0xC4 {
        None
    } else if q + 2 <= d.len() && be_u16_at(d, q) >= 2 {
        Some(q + be_u16_at(d, q))
    } else {
        None
    }
}

/// The frame information after the header segments from `p` of `d` that
/// `plain_header_scan` walks, starting from `fi`: each frame header (SOF55 or SOF0)
/// replaces it with its sample depth, height, width and component count.
pub open spec fn plain_header_frame(d: Seq<u8>, p: int, fi: FrameInfo) -> FrameInfo
    decreases d.len() - p,
{
    if p < 0 || p + 2 > d.len() || d[p] != 0xFF || !is_marker_code(d[p + 1]) || d[p + 1] == 0xDA {
        fi
    } else {
        let m = d[p + 1];
        let q = p + 2;
        let next = plain_segment_end(d, q, m);
        let fi2 = if m == 0xF7 || m == 0xC0 {
            FrameInfo {
                bits_per_sample: d[q + 2] as i32,
                height: be_u16_at(d, q + 3) as u32,
                width: be_u16_at(d, q + 5) as u32,
                component_count: d[q + 7] as i32,
            }
        } else {
            fi
        };
        match next {
            Some(e) => if p < e <= d.len() {
                plain_header_frame(d, e, fi2)
            } else {
                fi2
            },
            None => fi2,
        }
    }
}

/// Where the header segments from `p` of `d` reach a start-of-scan marker (its
/// position), when each segment before it is a frame header (SOF55 or SOF0), a preset
/// parameters segment, a restart interval, or one that is skipped by its length.
/// `None` otherwise: on a broken segment or marker, and on a SPIFF header or a table
/// (DQT, DHT), which this walk does not follow.
pub open spec fn plain_header_scan(d: Seq<u8>, p: int) -> Option<int>
    decreases d.len() - p,
{
    if p < 0 || p + 2 > d.len() || d[p] != 0xFF || !is_marker_code(d[p + 1]) {
        None
    } else if d[p + 1] == 0xDA {
        Some(p)
    } else {
        let m = d[p + 1];
        let q = p + 2;
        let next = plain_segment_end(d, q, m);
        match next {
            Some(e) => if p < e <= d.len() {
                plain_header_scan(d, e)
            } else {
                None
            },
            None => None,
        }
    }
}
} // verus!
