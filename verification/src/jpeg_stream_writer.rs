//! JPEG codestream writer: markers and segments of JPEG, JPEG-LS and JPEG 2000.
use crate::error::JpeglsError;
use crate::jpeg_marker_code::{spec_marker_code, JpegMarkerCode, JPEG_MARKER_START_BYTE};
use crate::jpeg_stream_reader::{be_u16_at, be_u32_at};
use crate::jpegls::{spec_interleave_mode_value, InterleaveMode, JpeglsPcParameters};
use crate::FrameInfo;
use vstd::prelude::*;

verus! {

/// The two bytes of a big-endian 16-bit value.
pub open spec fn be16(v: int) -> Seq<u8> {
    seq![((v / 256) % 256) as u8, (v % 256) as u8]
}

/// The four bytes of a big-endian 32-bit value.
pub open spec fn be32(v: int) -> Seq<u8> {
    seq![((v / 16777216) % 256) as u8, ((v / 65536) % 256) as u8, ((v / 256) % 256) as u8, (v % 256) as u8]
}

/// The two bytes of a marker.
pub open spec fn marker_bytes(m: JpegMarkerCode) -> Seq<u8> {
    seq![0xFFu8, spec_marker_code(m)]
}

/// Writes a codestream into a caller's buffer.
pub struct JpegStreamWriter<'a> {
    pub destination: &'a mut [u8],
    pub position: usize,
}

impl<'a> JpegStreamWriter<'a> {
    /// The bytes written so far.
    pub open spec fn out(&self) -> Seq<u8> {
        self.destination@.subrange(0, self.position as int)
    }

    /// The size of the buffer.
    pub open spec fn cap(&self) -> int {
        self.destination@.len() as int
    }

    /// The write position never passes the end of the buffer.
    pub open spec fn wf(&self) -> bool {
        self.position <= self.destination@.len()
    }

    /// `w` is `self` with `bytes` appended, when they fit; a failed write leaves a valid writer.
    pub open spec fn appended(&self, w: &Self, bytes: Seq<u8>, r: Result<(), JpeglsError>) -> bool {
        &&& w.wf()
        &&& w.cap() == self.cap()
        &&& r is Ok <==> self.out().len() + bytes.len() <= self.cap()
        &&& r is Ok ==> w.out() == self.out() + bytes
        &&& r matches Err(e) ==> e == JpeglsError::ParameterValueNotSupported
    }

    /// A writer at the start of `destination`.
    pub fn new(destination: &'a mut [u8]) -> (r: Self)
        ensures
            r.wf(),
            r.position == 0,
            r.destination@ == old(destination)@,
            final(destination)@ == final(r.destination)@,
    {
        Self { destination, position: 0 }
    }

    /// Number of bytes written.
    pub fn len(&self) -> (r: usize)
        ensures
            r == self.position,
    {
        self.position
    }

    /// Writes one byte; a full buffer is `ParameterValueNotSupported`.
    pub fn write_byte(&mut self, value: u8) -> (r: Result<(), JpeglsError>)
        requires
            old(self).wf(),
        ensures
            old(self).appended(final(self), seq![value], r),
            r is Err ==> *final(self) == *old(self),
            final(final(self).destination)@ == final(old(self).destination)@,
            forall|i: int|
                final(self).position <= i < final(self).cap() ==> #[trigger] final(self).destination@[i] == old(
                    self,
                ).destination@[i],
    {
        if self.position >= self.destination.len() {
            return Err(JpeglsError::ParameterValueNotSupported);
        }
        let p = self.position;
        self.destination[p] = value;
        self.position = p + 1;
        assert(self.out() =~= old(self).out() + seq![value]);
        Ok(())
    }

    /// Writes a big-endian 16-bit value.
    pub fn write_u16(&mut self, value: u16) -> (r: Result<(), JpeglsError>)
        requires
            old(self).wf(),
        ensures
            old(self).appended(final(self), be16(value as int), r),
            final(final(self).destination)@ == final(old(self).destination)@,
    {
        let hi = (value >> 8u16) as u8;
        let lo = (value & 0xFFu16) as u8;
        assert(hi == ((value as int / 256) % 256) as u8 && lo == (value as int % 256) as u8) by (bit_vector)
            requires
                hi == (value >> 8u16) as u8,
                lo == (value & 0xFFu16) as u8,
        ;
        let ghost o = self.out();
        self.write_byte(hi)?;
        self.write_byte(lo)?;
        assert(self.out() =~= o + be16(value as int));
        Ok(())
    }

    /// Writes a big-endian 32-bit value.
    pub fn write_u32(&mut self, value: u32) -> (r: Result<(), JpeglsError>)
        requires
            old(self).wf(),
        ensures
            old(self).appended(final(self), be32(value as int), r),
            final(final(self).destination)@ == final(old(self).destination)@,
    {
        let b0 = (value >> 24u32) as u8;
        let b1 = ((value >> 16u32) & 0xFFu32) as u8;
        let b2 = ((value >> 8u32) & 0xFFu32) as u8;
        let b3 = (value & 0xFFu32) as u8;
        assert(b0 == ((value as int / 16777216) % 256) as u8 && b1 == ((value as int / 65536) % 256) as u8 && b2
            == ((value as int / 256) % 256) as u8 && b3 == (value as int % 256) as u8) by (bit_vector)
            requires
                b0 == (value >> 24u32) as u8,
                b1 == ((value >> 16u32) & 0xFFu32) as u8,
                b2 == ((value >> 8u32) & 0xFFu32) as u8,
                b3 == (value & 0xFFu32) as u8,
        ;
        let ghost o = self.out();
        self.write_byte(b0)?;
        self.write_byte(b1)?;
        self.write_byte(b2)?;
        self.write_byte(b3)?;
        assert(self.out() =~= o + be32(value as int));
        Ok(())
    }

    /// Writes a marker: `0xFF` and its code.
    pub fn write_marker(&mut self, marker: JpegMarkerCode) -> (r: Result<(), JpeglsError>)
        requires
            old(self).wf(),
        ensures
            old(self).appended(final(self), marker_bytes(marker), r),
            final(final(self).destination)@ == final(old(self).destination)@,
    {
        let ghost o = self.out();
        self.write_byte(JPEG_MARKER_START_BYTE)?;
        self.write_byte(marker.code())?;
        assert(self.out() =~= o + marker_bytes(marker));
        Ok(())
    }

    /// Writes SOI.
    pub fn write_start_of_image(&mut self) -> (r: Result<(), JpeglsError>)
        requires
            old(self).wf(),
        ensures
            old(self).appended(final(self), marker_bytes(JpegMarkerCode::StartOfImage), r),
            final(final(self).destination)@ == final(old(self).destination)@,
    {
        self.write_marker(JpegMarkerCode::StartOfImage)
    }

    /// Writes EOI.
    pub fn write_end_of_image(&mut self) -> (r: Result<(), JpeglsError>)
        requires
            old(self).wf(),
        ensures
            old(self).appended(final(self), marker_bytes(JpegMarkerCode::EndOfImage), r),
            final(final(self).destination)@ == final(old(self).destination)@,
    {
        self.write_marker(JpegMarkerCode::EndOfImage)
    }

    /// Writes DRI with a restart interval.
    pub fn write_dri(&mut self, restart_interval: u16) -> (r: Result<(), JpeglsError>)
        requires
            old(self).wf(),
        ensures
            old(self).appended(
                final(self),
                marker_bytes(JpegMarkerCode::DefineRestartInterval) + be16(4) + be16(restart_interval as int),
                r,
            ),
            final(final(self).destination)@ == final(old(self).destination)@,
    {
        let ghost o = self.out();
        self.write_marker(JpegMarkerCode::DefineRestartInterval)?;
        self.write_u16(4)?;
        self.write_u16(restart_interval)?;
        assert(self.out() =~= o + (marker_bytes(JpegMarkerCode::DefineRestartInterval) + be16(4) + be16(
            restart_interval as int,
        )));
        Ok(())
    }

    /// The part of the buffer past the write position.
    pub fn remaining_slice(&mut self) -> (r: &mut [u8])
        requires
            old(self).wf(),
        ensures
            r@ == old(self).destination@.subrange(old(self).position as int, old(self).destination@.len() as int),
    {
        let p = self.position;
        let (_, rest) = self.destination.split_at_mut(p);
        rest
    }

    /// Moves the write position forward over bytes written by other means.
    pub fn advance(&mut self, count: usize)
        requires
            old(self).wf(),
            old(self).position + count <= old(self).cap(),
        ensures
            final(self).wf(),
            final(self).destination@ == old(self).destination@,
            final(self).position == old(self).position + count,
            final(final(self).destination)@ == final(old(self).destination)@,
    {
        let n = self.destination.len();
        assert(self.position + count <= n);
        self.position = self.position + count;
    }
}


/// Component specifications of a frame header: id `i + 1`, sampling 1x1, table selector.
pub open spec fn frame_components(count: int, baseline: bool) -> Seq<u8> {
    Seq::new(
        (3 * count) as nat,
        |j: int|
            if j % 3 == 0 {
                (j / 3 + 1) as u8
            } else if j % 3 == 1 {
                0x11u8
            } else if baseline && j / 3 != 0 {
                1u8
            } else {
                0u8
            },
    )
}

/// Component selectors of a JPEG-LS scan header: id `i + 1` and mapping table 0.
pub open spec fn jpegls_scan_components(count: int) -> Seq<u8> {
    Seq::new((2 * count) as nat, |j: int| if j % 2 == 0 { (j / 2 + 1) as u8 } else { 0u8 })
}

/// Component selectors of a JPEG 1 scan header: id `i + 1`, tables 0 for the first component, 1 for others.
pub open spec fn baseline_scan_components(count: int) -> Seq<u8> {
    Seq::new(
        (2 * count) as nat,
        |j: int|
            if j % 2 == 0 {
                (j / 2 + 1) as u8
            } else if j / 2 == 0 {
                0u8
            } else {
                0x11u8
            },
    )
}

/// The SOF segment of a JPEG-LS frame.
pub open spec fn sof55_bytes(fi: FrameInfo) -> Seq<u8> {
    marker_bytes(JpegMarkerCode::StartOfFrameJpegls) + be16((8 + 3 * fi.component_count) as u16 as int) + seq![
        fi.bits_per_sample as u8,
    ] + be16(fi.height as u16 as int) + be16(fi.width as u16 as int) + seq![fi.component_count as u8]
        + frame_components(fi.component_count as int, false)
}

/// The SOF0 segment of a baseline JPEG frame.
pub open spec fn sof0_bytes(fi: FrameInfo) -> Seq<u8> {
    marker_bytes(JpegMarkerCode::StartOfFrameBaseline) + be16((8 + 3 * fi.component_count) as u16 as int) + seq![
        fi.bits_per_sample as u8,
    ] + be16(fi.height as u16 as int) + be16(fi.width as u16 as int) + seq![fi.component_count as u8]
        + frame_components(fi.component_count as int, true)
}

/// The SOS segment of a JPEG-LS scan.
pub open spec fn sos_jpegls_bytes(count: int, near: int, mode: InterleaveMode) -> Seq<u8> {
    marker_bytes(JpegMarkerCode::StartOfScan) + be16((6 + 2 * count) as u16 as int) + seq![count as u8]
        + jpegls_scan_components(count) + seq![near as u8, spec_interleave_mode_value(mode), 0u8]
}

/// The SOS segment of a baseline JPEG scan.
pub open spec fn sos_baseline_bytes(count: int) -> Seq<u8> {
    marker_bytes(JpegMarkerCode::StartOfScan) + be16((6 + 2 * count) as u16 as int) + seq![count as u8]
        + baseline_scan_components(count) + seq![0u8, 63u8, 0u8]
}

/// The LSE segment of type 1 with preset coding parameters.
pub open spec fn lse_bytes(pc: JpeglsPcParameters) -> Seq<u8> {
    marker_bytes(JpegMarkerCode::JpeglsPresetParameters) + be16(13) + seq![1u8] + be16(
        pc.maximum_sample_value as u16 as int,
    ) + be16(pc.threshold1 as u16 as int) + be16(pc.threshold2 as u16 as int) + be16(
        pc.threshold3 as u16 as int,
    ) + be16(pc.reset_value as u16 as int)
}

/// The DQT segment of one 8-bit table.
pub open spec fn dqt_bytes(table_id: u8, table: Seq<u8>) -> Seq<u8> {
    marker_bytes(JpegMarkerCode::DefineQuantizationTable) + be16(67) + seq![table_id & 0x0F] + table
}

/// The DHT segment of one table.
pub open spec fn dht_bytes(table_class: u8, table_id: u8, lengths: Seq<u8>, values: Seq<u8>) -> Seq<u8> {
    marker_bytes(JpegMarkerCode::DefineHuffmanTable) + be16((19 + values.len()) as u16 as int) + seq![
        (((table_class & 1) << 4u8) | (table_id & 0x0F)) as u8,
    ] + lengths + values
}

fn frame_component_bytes(count: i32, baseline: bool) -> (r: Vec<u8>)
    requires
        0 <= count,
    ensures
        r@ == frame_components(count as int, baseline),
{
    let mut v: Vec<u8> = Vec::new();
    let mut i: i32 = 0;
    while i < count
        invariant
            0 <= i <= count,
            v@ == frame_components(count as int, baseline).take(3 * i),
        decreases count - i,
    {
        let q: u8 = if baseline && i != 0 { 1 } else { 0 };
        v.push(((i + 1) as u8));
        v.push(0x11);
        v.push(q);
        proof {
            let f = frame_components(count as int, baseline);
            assert(f[3 * i] == (i + 1) as u8);
            assert(f[3 * i + 1] == 0x11u8);
            assert(f[3 * i + 2] == q);
            assert(v@ =~= f.take(3 * i + 3));
        }
        i = i + 1;
    }
    assert(v@ =~= frame_components(count as int, baseline));
    v
}

fn scan_component_bytes(count: i32, baseline: bool) -> (r: Vec<u8>)
    requires
        0 <= count,
    ensures
        baseline ==> r@ == baseline_scan_components(count as int),
        !baseline ==> r@ == jpegls_scan_components(count as int),
{
    let mut v: Vec<u8> = Vec::new();
    let mut i: i32 = 0;
    while i < count
        invariant
            0 <= i <= count,
            baseline ==> v@ == baseline_scan_components(count as int).take(2 * i),
            !baseline ==> v@ == jpegls_scan_components(count as int).take(2 * i),
        decreases count - i,
    {
        let sel: u8 = if !baseline { 0 } else if i == 0 { 0 } else { 0x11 };
        v.push(((i + 1) as u8));
        v.push(sel);
        proof {
            if baseline {
                let f = baseline_scan_components(count as int);
                assert(f[2 * i] == (i + 1) as u8);
                assert(f[2 * i + 1] == sel);
                assert(v@ =~= f.take(2 * i + 2));
            } else {
                let f = jpegls_scan_components(count as int);
                assert(f[2 * i] == (i + 1) as u8);
                assert(f[2 * i + 1] == sel);
                assert(v@ =~= f.take(2 * i + 2));
            }
        }
        i = i + 1;
    }
    proof {
        if baseline {
            assert(v@ =~= baseline_scan_components(count as int));
        } else {
            assert(v@ =~= jpegls_scan_components(count as int));
        }
    }
    v
}

impl<'a> JpegStreamWriter<'a> {
    /// Writes the bytes of `data`.
    pub fn write_bytes(&mut self, data: &[u8]) -> (r: Result<(), JpeglsError>)
        requires
            old(self).wf(),
        ensures
            old(self).appended(final(self), data@, r),
            final(final(self).destination)@ == final(old(self).destination)@,
    {
        let ghost o = self.out();
        let mut i: usize = 0;
        while i < data.len()
            invariant
                final(self.destination)@ == final(old(self).destination)@,
                self.wf(),
                self.cap() == old(self).cap(),
                0 <= i <= data.len(),
                self.out() == o + data@.take(i as int),
                o == old(self).out(),
                o.len() + i <= self.cap(),
            decreases data.len() - i,
        {
            if let Err(e) = self.write_byte(data[i]) {
                return Err(e);
            }
            assert(self.out() =~= o + data@.take(i + 1));
            i = i + 1;
        }
        assert(data@.take(data.len() as int) =~= data@);
        Ok(())
    }

    /// Writes the SOF segment of a JPEG-LS frame.
    pub fn write_start_of_frame_jpegls(&mut self, frame_info: &FrameInfo) -> (r: Result<(), JpeglsError>)
        requires
            old(self).wf(),
            0 <= frame_info.component_count,
            3 * frame_info.component_count + 8 <= usize::MAX,
        ensures
            old(self).appended(final(self), sof55_bytes(*frame_info), r),
            final(final(self).destination)@ == final(old(self).destination)@,
    {
        let ghost o = self.out();
        let count = frame_info.component_count;
        let comps = frame_component_bytes(count, false);
        let length = 2 + 6 + (count as usize * 3);
        self.write_marker(JpegMarkerCode::StartOfFrameJpegls)?;
        self.write_u16(length as u16)?;
        self.write_byte(frame_info.bits_per_sample as u8)?;
        self.write_u16(frame_info.height as u16)?;
        self.write_u16(frame_info.width as u16)?;
        self.write_byte(count as u8)?;
        self.write_bytes(&comps)?;
        assert(self.out() =~= o + sof55_bytes(*frame_info));
        Ok(())
    }

    /// Writes the SOF0 segment of a baseline JPEG frame.
    pub fn write_sof0_segment(&mut self, frame_info: &FrameInfo) -> (r: Result<(), JpeglsError>)
        requires
            old(self).wf(),
            0 <= frame_info.component_count,
            3 * frame_info.component_count + 8 <= usize::MAX,
        ensures
            old(self).appended(final(self), sof0_bytes(*frame_info), r),
            final(final(self).destination)@ == final(old(self).destination)@,
    {
        let ghost o = self.out();
        let count = frame_info.component_count;
        let comps = frame_component_bytes(count, true);
        let length = 2 + 1 + 2 + 2 + 1 + (count as usize * 3);
        self.write_marker(JpegMarkerCode::StartOfFrameBaseline)?;
        self.write_u16(length as u16)?;
        self.write_byte(frame_info.bits_per_sample as u8)?;
        self.write_u16(frame_info.height as u16)?;
        self.write_u16(frame_info.width as u16)?;
        self.write_byte(count as u8)?;
        self.write_bytes(&comps)?;
        assert(self.out() =~= o + sof0_bytes(*frame_info));
        Ok(())
    }

    /// Writes a DQT segment with one 8-bit table.
    pub fn write_dqt(&mut self, table_id: u8, table: &[u8; 64]) -> (r: Result<(), JpeglsError>)
        requires
            old(self).wf(),
        ensures
            old(self).appended(final(self), dqt_bytes(table_id, table@), r),
            final(final(self).destination)@ == final(old(self).destination)@,
    {
        let ghost o = self.out();
        self.write_marker(JpegMarkerCode::DefineQuantizationTable)?;
        self.write_u16(2 + 1 + 64)?;
        self.write_byte(table_id & 0x0F)?;
        self.write_bytes(table)?;
        assert(self.out() =~= o + dqt_bytes(table_id, table@));
        Ok(())
    }

    /// Writes a DHT segment with one table.
    pub fn write_dht(&mut self, table_class: u8, table_id: u8, lengths: &[u8; 16], values: &[u8]) -> (r: Result<
        (),
        JpeglsError,
    >)
        requires
            old(self).wf(),
            values@.len() <= isize::MAX,
        ensures
            old(self).appended(final(self), dht_bytes(table_class, table_id, lengths@, values@), r),
            final(final(self).destination)@ == final(old(self).destination)@,
    {
        let ghost o = self.out();
        self.write_marker(JpegMarkerCode::DefineHuffmanTable)?;
        let length = 2 + 1 + 16 + values.len();
        self.write_u16(length as u16)?;
        self.write_byte(((table_class & 1) << 4u8) | (table_id & 0x0F))?;
        self.write_bytes(lengths)?;
        self.write_bytes(values)?;
        assert(self.out() =~= o + dht_bytes(table_class, table_id, lengths@, values@));
        Ok(())
    }

    /// Writes the SOS segment of a baseline JPEG scan.
    pub fn write_sos_segment(&mut self, component_count: u8) -> (r: Result<(), JpeglsError>)
        requires
            old(self).wf(),
        ensures
            old(self).appended(final(self), sos_baseline_bytes(component_count as int), r),
            final(final(self).destination)@ == final(old(self).destination)@,
    {
        let ghost o = self.out();
        let comps = scan_component_bytes(component_count as i32, true);
        let length = 2 + 1 + (component_count as usize * 2) + 3;
        self.write_marker(JpegMarkerCode::StartOfScan)?;
        self.write_u16(length as u16)?;
        self.write_byte(component_count)?;
        self.write_bytes(&comps)?;
        self.write_byte(0)?;
        self.write_byte(63)?;
        self.write_byte(0)?;
        assert(self.out() =~= o + sos_baseline_bytes(component_count as int));
        Ok(())
    }

    /// Writes the SOS segment of a JPEG-LS scan.
    pub fn write_start_of_scan_segment(
        &mut self,
        component_count: i32,
        near_lossless: i32,
        interleave_mode: InterleaveMode,
    ) -> (r: Result<(), JpeglsError>)
        requires
            old(self).wf(),
            0 <= component_count,
            2 * component_count + 6 <= usize::MAX,
        ensures
            old(self).appended(
                final(self),
                sos_jpegls_bytes(component_count as int, near_lossless as int, interleave_mode),
                r,
            ),
            final(final(self).destination)@ == final(old(self).destination)@,
    {
        let ghost o = self.out();
        let comps = scan_component_bytes(component_count, false);
        let length = 2 + 1 + (component_count as usize * 2) + 3;
        self.write_marker(JpegMarkerCode::StartOfScan)?;
        self.write_u16(length as u16)?;
        self.write_byte(component_count as u8)?;
        self.write_bytes(&comps)?;
        self.write_byte(near_lossless as u8)?;
        self.write_byte(interleave_mode.value())?;
        self.write_byte(0)?;
        assert(self.out() =~= o + sos_jpegls_bytes(component_count as int, near_lossless as int, interleave_mode));
        Ok(())
    }

    /// Writes an LSE segment of type 1 with preset coding parameters.
    pub fn write_jpegls_preset_parameters_segment(&mut self, pc: &JpeglsPcParameters) -> (r: Result<
        (),
        JpeglsError,
    >)
        requires
            old(self).wf(),
        ensures
            old(self).appended(final(self), lse_bytes(*pc), r),
            final(final(self).destination)@ == final(old(self).destination)@,
    {
        let ghost o = self.out();
        self.write_marker(JpegMarkerCode::JpeglsPresetParameters)?;
        self.write_u16(2 + 1 + 5 * 2)?;
        self.write_byte(1)?;
        self.write_u16(pc.maximum_sample_value as u16)?;
        self.write_u16(pc.threshold1 as u16)?;
        self.write_u16(pc.threshold2 as u16)?;
        self.write_u16(pc.threshold3 as u16)?;
        self.write_u16(pc.reset_value as u16)?;
        assert(self.out() =~= o + lse_bytes(*pc));
        Ok(())
    }
}
/// A 16-bit or 32-bit value written big-endian by the writer is read back unchanged by
/// the stream reader.
pub proof fn lemma_big_endian_roundtrip(v16: int, v32: int)
    requires
        0 <= v16 < 0x1_0000,
        0 <= v32 < 0x1_0000_0000,
    ensures
        be_u16_at(be16(v16), 0) == v16,
        be_u32_at(be32(v32), 0) == v32,
{
    let a = v32 / 16777216;
    let r1 = v32 % 16777216;
    let b = r1 / 65536;
    let r2 = r1 % 65536;
    let c = r2 / 256;
    let d = r2 % 256;
    assert(v32 / 65536 == a * 256 + b) by (nonlinear_arith)
        requires a == v32 / 16777216, r1 == v32 % 16777216, b == r1 / 65536, 0 <= v32;
    assert(v32 / 256 == (a * 256 + b) * 256 + c) by (nonlinear_arith)
        requires a == v32 / 16777216, r1 == v32 % 16777216, b == r1 / 65536, r2 == r1 % 65536, c == r2 / 256, 0 <= v32;
    assert(v32 % 256 == d) by (nonlinear_arith)
        requires r1 == v32 % 16777216, r2 == r1 % 65536, d == r2 % 256, 0 <= v32;
    assert(v32 == a * 16777216 + b * 65536 + c * 256 + d) by (nonlinear_arith)
        requires a == v32 / 16777216, r1 == v32 % 16777216, b == r1 / 65536, r2 == r1 % 65536, c == r2 / 256, d == r2 % 256;
}

} // verus!
