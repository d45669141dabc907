//! JPEG 2000 codestream writer: markers and marker segments.
use crate::error::JpeglsError;
use crate::jpeg2000::image::{J2kCod, J2kQcd};
use crate::jpeg_marker_code::JpegMarkerCode;
use crate::jpeg_stream_writer::{be16, be32, marker_bytes, JpegStreamWriter};
use vstd::prelude::*;

verus! {

/// `n` copies of the bytes `a`, `b`, `c`.
pub open spec fn triples(n: nat, a: u8, b: u8, c: u8) -> Seq<u8> {
    Seq::new(3 * n, |i: int| if i % 3 == 0 { a } else if i % 3 == 1 { b } else { c })
}

/// `n` big-endian 16-bit zeros.
pub open spec fn zero_words(n: nat) -> Seq<u8> {
    Seq::new(2 * n, |i: int| 0u8)
}

/// The CAP segment: Pcap has bit 14 (counted from the most significant) set for HT block
/// coding; one zero Ccap word per component.
pub open spec fn cap_bytes(use_htj2k: bool, component_count: u16) -> Seq<u8> {
    marker_bytes(JpegMarkerCode::Capability) + be16(6 + 2 * component_count) + be32(
        if use_htj2k { 0x0002_0000 } else { 0 },
    ) + zero_words(component_count as nat)
}

/// The SIZ segment of an image at the origin, with tiles at the origin and every
/// component alike.
pub open spec fn siz_bytes(
    width: u32,
    height: u32,
    tile_width: u32,
    tile_height: u32,
    component_count: u16,
    ssiz: u8,
    sub_x: u8,
    sub_y: u8,
) -> Seq<u8> {
    marker_bytes(JpegMarkerCode::ImageAndTileSize) + be16(38 + 3 * component_count) + be16(0) + be32(width as int)
        + be32(height as int) + be32(0) + be32(0) + be32(tile_width as int) + be32(tile_height as int) + be32(0) + be32(0) + be16(
        component_count as int,
    ) + triples(component_count as nat, ssiz, sub_x, sub_y)
}

/// The COD segment (no precinct sizes).
pub open spec fn cod_bytes(cod: J2kCod) -> Seq<u8> {
    marker_bytes(JpegMarkerCode::CodingStyleDefault) + be16(12) + seq![cod.coding_style, cod.progression_order]
        + be16(cod.number_of_layers as int) + seq![
        cod.mct,
        cod.decomposition_levels,
        cod.codeblock_width_exp,
        cod.codeblock_height_exp,
        cod.code_block_style,
        cod.transformation,
    ]
}

/// The step sizes of a QCD segment: 16 bits each for scalar expounded
/// quantization, else the high byte of each.
pub open spec fn qcd_steps(steps: Seq<u16>, wide: bool) -> Seq<u8>
    decreases steps.len(),
{
    if steps.len() == 0 {
        seq![]
    } else {
        let last = steps.last();
        qcd_steps(steps.drop_last(), wide) + if wide { be16(last as int) } else { seq![(last / 256) as u8] }
    }
}

/// The QCD segment of style `quant_style` and step sizes `steps`; its length field is
/// truncated to 16 bits.
pub open spec fn qcd_seq_bytes(quant_style: u8, steps: Seq<u16>) -> Seq<u8> {
    let wide = quant_style & 0x1F == 2;
    let payload = 1 + steps.len() * if wide { 2int } else { 1int };
    marker_bytes(JpegMarkerCode::QuantizationDefault) + be16((payload + 2) % 65536) + seq![quant_style]
        + qcd_steps(steps, wide)
}

/// The QCD segment of `qcd`.
pub open spec fn qcd_bytes(qcd: J2kQcd) -> Seq<u8> {
    qcd_seq_bytes(qcd.quant_style, qcd.step_sizes@)
}

/// The SOT segment.
pub open spec fn sot_bytes(tile_index: u16, tile_len: u32, tile_part_index: u8, num_tile_parts: u8) -> Seq<u8> {
    marker_bytes(JpegMarkerCode::StartOfTile) + be16(10) + be16(tile_index as int) + be32(tile_len as int) + seq![
        tile_part_index,
        num_tile_parts,
    ]
}

/// Bytes of a tile index in TLM: none for one tile, one up to 256 tiles, else two.
pub open spec fn tlm_index_size(num_tiles: u32) -> int {
    if num_tiles <= 1 { 0 } else if num_tiles <= 256 { 1 } else { 2 }
}

/// The TLM segment with one entry.
pub open spec fn tlm_bytes(tile_index: u16, tile_len: u32, num_tiles: u32) -> Seq<u8> {
    let st = tlm_index_size(num_tiles);
    let sp: int = if tile_len <= 65535 { 0 } else { 1 };
    let size = 2 + st + if sp == 0 { 2int } else { 4int };
    marker_bytes(JpegMarkerCode::TilePartLengths) + be16(size + 2) + seq![0u8, (sp * 64 + st) as u8] + (if st == 1 {
        seq![tile_index as u8]
    } else if st == 2 {
        be16(tile_index as int)
    } else {
        seq![]
    }) + if sp == 0 { be16(tile_len as int % 65536) } else { be32(tile_len as int) }
}

/// The high groups of seven bits of `v`, most significant first, each with bit 7 set.
pub open spec fn continuation_groups(v: int) -> Seq<u8>
    decreases v,
{
    if v <= 0 {
        seq![]
    } else {
        continuation_groups(v / 128) + seq![(128 + v % 128) as u8]
    }
}

/// A packet length as PLT codes it: groups of seven bits, most significant first,
/// bit 7 set on all but the last.
pub open spec fn plt_length(v: int) -> Seq<u8> {
    continuation_groups(v / 128) + seq![(v % 128) as u8]
}

/// The packet lengths of a PLT segment, one after another.
pub open spec fn plt_lengths(lengths: Seq<u32>) -> Seq<u8>
    decreases lengths.len(),
{
    if lengths.len() == 0 {
        seq![]
    } else {
        plt_lengths(lengths.drop_last()) + plt_length(lengths.last() as int)
    }
}

/// Writes a JPEG 2000 codestream into a caller's buffer.
pub struct J2kWriter<'a> {
    /// The underlying writer.
    pub writer: JpegStreamWriter<'a>,
}

impl<'a> J2kWriter<'a> {
    /// The bytes written so far.
    pub open spec fn out(&self) -> Seq<u8> {
        self.writer.out()
    }

    /// The writer's state is valid.
    pub open spec fn wf(&self) -> bool {
        self.writer.wf()
    }

    /// `w` is `self` with `bytes` appended, when they fit.
    pub open spec fn appended(&self, w: &Self, bytes: Seq<u8>, r: Result<(), JpeglsError>) -> bool {
        self.writer.appended(&w.writer, bytes, r)
    }

    /// A writer at the start of `destination`.
    pub fn new(destination: &'a mut [u8]) -> (r: Self)
        ensures
            r.wf(),
            r.out().len() == 0,
            r.writer.destination@ == old(destination)@,
            final(destination)@ == final(r.writer.destination)@,
    {
        Self { writer: JpegStreamWriter::new(destination) }
    }

    /// Number of bytes written.
    pub fn len(&self) -> (r: usize)
        ensures
            r == self.writer.position,
    {
        self.writer.len()
    }

    /// Whether nothing has been written.
    pub fn is_empty(&self) -> (r: bool)
        ensures
            r == (self.writer.position == 0),
    {
        self.writer.len() == 0
    }

    /// Writes SOC.
    pub fn write_soc(&mut self) -> (r: Result<(), JpeglsError>)
        requires
            old(self).wf(),
        ensures
            old(self).appended(final(self), marker_bytes(JpegMarkerCode::StartOfCodestream), r),
            final(final(self).writer.destination)@ == final(old(self).writer.destination)@,
    {
        self.writer.write_marker(JpegMarkerCode::StartOfCodestream)
    }

    /// Writes EOC.
    pub fn write_eoc(&mut self) -> (r: Result<(), JpeglsError>)
        requires
            old(self).wf(),
        ensures
            old(self).appended(final(self), marker_bytes(JpegMarkerCode::EndOfImage), r),
            final(final(self).writer.destination)@ == final(old(self).writer.destination)@,
    {
        self.writer.write_marker(JpegMarkerCode::EndOfImage)
    }

    /// Writes a CAP segment; with `use_htj2k`, Pcap announces HT block coding.
    pub fn write_cap(&mut self, use_htj2k: bool, component_count: u16) -> (r: Result<(), JpeglsError>)
        requires
            old(self).wf(),
            6 + 2 * component_count <= u16::MAX,
        ensures
            old(self).appended(final(self), cap_bytes(use_htj2k, component_count), r),
            final(final(self).writer.destination)@ == final(old(self).writer.destination)@,
    {
        let ghost o = self.out();
        self.writer.write_marker(JpegMarkerCode::Capability)?;
        let length: u16 = 2 + 4 + 2 * component_count;
        self.writer.write_u16(length)?;
        let pcap: u32 = if use_htj2k { 0x0002_0000 } else { 0 };
        self.writer.write_u32(pcap)?;
        let mut zeros: Vec<u8> = Vec::new();
        let mut c: u16 = 0;
        while c < component_count
            invariant
                c <= component_count,
                zeros@ == zero_words(c as nat),
            decreases component_count - c,
        {
            zeros.push(0);
            zeros.push(0);
            assert(zeros@ =~= zero_words((c + 1) as nat));
            c = c + 1;
        }
        self.writer.write_bytes(&zeros)?;
        assert(self.out() =~= o + cap_bytes(use_htj2k, component_count));
        Ok(())
    }

    /// Writes a SIZ segment: image and tile sizes at the origin, then each component's
    /// depth (less one, bit 7 for signed) and subsampling.
    #[verifier::rlimit(40)]
    pub fn write_siz(
        &mut self,
        width: u32,
        height: u32,
        tile_width: u32,
        tile_height: u32,
        component_count: u16,
        bit_depth: u8,
        is_signed: bool,
        sub_x: u8,
        sub_y: u8,
    ) -> (r: Result<(), JpeglsError>)
        requires
            old(self).wf(),
            38 + 3 * component_count <= u16::MAX,
            bit_depth >= 1,
        ensures
            old(self).appended(
                final(self),
                siz_bytes(
                    width,
                    height,
                    tile_width,
                    tile_height,
                    component_count,
                    ((bit_depth - 1) as u8 | if is_signed { 0x80u8 } else { 0u8 }),
                    sub_x,
                    sub_y,
                ),
                r,
            ),
            final(final(self).writer.destination)@ == final(old(self).writer.destination)@,
    {
        let ghost o = self.out();
        self.writer.write_marker(JpegMarkerCode::ImageAndTileSize)?;
        let length: u16 = 38 + 3 * component_count;
        self.writer.write_u16(length)?;
        self.writer.write_u16(0)?;
        self.writer.write_u32(width)?;
        self.writer.write_u32(height)?;
        self.writer.write_u32(0)?;
        self.writer.write_u32(0)?;
        self.writer.write_u32(tile_width)?;
        self.writer.write_u32(tile_height)?;
        self.writer.write_u32(0)?;
        self.writer.write_u32(0)?;
        self.writer.write_u16(component_count)?;
        let ssiz: u8 = (bit_depth - 1) | (if is_signed { 0x80u8 } else { 0u8 });
        let mut comps: Vec<u8> = Vec::new();
        let mut c: u16 = 0;
        while c < component_count
            invariant
                c <= component_count,
                comps@ == triples(c as nat, ssiz, sub_x, sub_y),
            decreases component_count - c,
        {
            comps.push(ssiz);
            comps.push(sub_x);
            comps.push(sub_y);
            assert(comps@ =~= triples((c + 1) as nat, ssiz, sub_x, sub_y));
            c = c + 1;
        }
        self.writer.write_bytes(&comps)?;
        assert(self.out() =~= o + siz_bytes(
            width,
            height,
            tile_width,
            tile_height,
            component_count,
            ssiz,
            sub_x,
            sub_y,
        ));
        Ok(())
    }

    /// Writes a COD segment (without precinct sizes).
    pub fn write_cod(&mut self, cod: &J2kCod) -> (r: Result<(), JpeglsError>)
        requires
            old(self).wf(),
        ensures
            old(self).appended(final(self), cod_bytes(*cod), r),
            final(final(self).writer.destination)@ == final(old(self).writer.destination)@,
    {
        let ghost o = self.out();
        self.writer.write_marker(JpegMarkerCode::CodingStyleDefault)?;
        self.writer.write_u16(12)?;
        self.writer.write_byte(cod.coding_style)?;
        self.writer.write_byte(cod.progression_order)?;
        self.writer.write_u16(cod.number_of_layers)?;
        self.writer.write_byte(cod.mct)?;
        self.writer.write_byte(cod.decomposition_levels)?;
        self.writer.write_byte(cod.codeblock_width_exp)?;
        self.writer.write_byte(cod.codeblock_height_exp)?;
        self.writer.write_byte(cod.code_block_style)?;
        self.writer.write_byte(cod.transformation)?;
        assert(self.out() =~= o + cod_bytes(*cod));
        Ok(())
    }

    /// Writes a QCD segment.
    pub fn write_qcd(&mut self, qcd: &J2kQcd) -> (r: Result<(), JpeglsError>)
        requires
            old(self).wf(),
            3 + 2 * qcd.step_sizes@.len() <= usize::MAX,
        ensures
            old(self).appended(final(self), qcd_bytes(*qcd), r),
            final(final(self).writer.destination)@ == final(old(self).writer.destination)@,
    {
        let ghost o = self.out();
        self.writer.write_marker(JpegMarkerCode::QuantizationDefault)?;
        let quant_type = qcd.quant_style & 0x1F;
        let is_16bit = quant_type == 0x02;
        let step_size_bytes: usize = if is_16bit { 2 } else { 1 };
        let payload_len: usize = 1 + qcd.step_sizes.len() * step_size_bytes;
        let field: usize = payload_len + 2;
        let length: u16 = (field % 65536) as u16;
        self.writer.write_u16(length)?;
        self.writer.write_byte(qcd.quant_style)?;
        let mut steps: Vec<u8> = Vec::new();
        let mut k: usize = 0;
        while k < qcd.step_sizes.len()
            invariant
                k <= qcd.step_sizes@.len(),
                is_16bit == (qcd.quant_style & 0x1F == 2),
                steps@ == qcd_steps(qcd.step_sizes@.take(k as int), is_16bit),
            decreases qcd.step_sizes@.len() - k,
        {
            let step = qcd.step_sizes[k];
            if is_16bit {
                let hi = (step / 256) as u8;
                let lo = (step % 256) as u8;
                steps.push(hi);
                steps.push(lo);
            } else {
                steps.push((step >> 8u16) as u8);
                assert(step >> 8u16 == step / 256) by (bit_vector);
            }
            proof {
                let t = qcd.step_sizes@.take(k + 1);
                assert(t.drop_last() =~= qcd.step_sizes@.take(k as int));
                assert(steps@ =~= qcd_steps(t, is_16bit));
            }
            k = k + 1;
        }
        assert(qcd.step_sizes@.take(qcd.step_sizes@.len() as int) =~= qcd.step_sizes@);
        self.writer.write_bytes(&steps)?;
        assert(self.out() =~= o + qcd_bytes(*qcd));
        Ok(())
    }

    /// Writes a SOT segment.
    pub fn write_sot(&mut self, tile_index: u16, tile_len: u32, tile_part_index: u8, num_tile_parts: u8) -> (r:
        Result<(), JpeglsError>)
        requires
            old(self).wf(),
        ensures
            old(self).appended(final(self), sot_bytes(tile_index, tile_len, tile_part_index, num_tile_parts), r),
            final(final(self).writer.destination)@ == final(old(self).writer.destination)@,
    {
        let ghost o = self.out();
        self.writer.write_marker(JpegMarkerCode::StartOfTile)?;
        self.writer.write_u16(10)?;
        self.writer.write_u16(tile_index)?;
        self.writer.write_u32(tile_len)?;
        self.writer.write_byte(tile_part_index)?;
        self.writer.write_byte(num_tile_parts)?;
        assert(self.out() =~= o + sot_bytes(tile_index, tile_len, tile_part_index, num_tile_parts));
        Ok(())
    }

    /// Writes SOD.
    pub fn write_sod(&mut self) -> (r: Result<(), JpeglsError>)
        requires
            old(self).wf(),
        ensures
            old(self).appended(final(self), marker_bytes(JpegMarkerCode::StartOfData), r),
            final(final(self).writer.destination)@ == final(old(self).writer.destination)@,
    {
        self.writer.write_marker(JpegMarkerCode::StartOfData)
    }

    /// Writes a TLM segment with one entry: the tile index in as few bytes as the tile
    /// count needs, the length in two bytes when it fits, else four.
    pub fn write_tlm(&mut self, tile_index: u16, tile_len: u32, num_tiles: u32) -> (r: Result<(), JpeglsError>)
        requires
            old(self).wf(),
        ensures
            old(self).appended(final(self), tlm_bytes(tile_index, tile_len, num_tiles), r),
            final(final(self).writer.destination)@ == final(old(self).writer.destination)@,
    {
        let ghost o = self.out();
        self.writer.write_marker(JpegMarkerCode::TilePartLengths)?;
        let st: u8 = if num_tiles <= 1 {
            0
        } else if num_tiles <= 256 {
            1
        } else {
            2
        };
        let sp: u8 = if tile_len <= 65535 { 0 } else { 1 };
        let stlm: u8 = sp * 64 + st;
        let st_bytes: u16 = st as u16;
        let sp_bytes: u16 = if sp == 0 { 2 } else { 4 };
        let payload_len: u16 = 2 + (st_bytes + sp_bytes);
        self.writer.write_u16(payload_len + 2)?;
        self.writer.write_byte(0)?;
        self.writer.write_byte(stlm)?;
        if st == 1 {
            self.writer.write_byte(tile_index as u8)?;
        } else if st == 2 {
            self.writer.write_u16(tile_index)?;
        }
        if sp == 0 {
            self.writer.write_u16(tile_len as u16)?;
        } else {
            self.writer.write_u32(tile_len)?;
        }
        assert(self.out() =~= o + tlm_bytes(tile_index, tile_len, num_tiles));
        Ok(())
    }

    /// Writes raw bytes (packet data).
    pub fn write_bytes(&mut self, data: &[u8]) -> (r: Result<(), JpeglsError>)
        requires
            old(self).wf(),
        ensures
            old(self).appended(final(self), data@, r),
            final(final(self).writer.destination)@ == final(old(self).writer.destination)@,
    {
        self.writer.write_bytes(data)
    }
}


/// One packet length as PLT codes it.
pub(crate) fn plt_encode(len: u32) -> (r: Vec<u8>)
    ensures
        r@ == plt_length(len as int),
{
    let mut bytes: Vec<u8> = Vec::new();
    assert(len & 0x7F == len % 128 && len >> 7u32 == len / 128) by (bit_vector);
    bytes.push((len & 0x7F) as u8);
    let mut remaining: u32 = len >> 7u32;
    while remaining > 0
        invariant
            plt_length(len as int) == continuation_groups(remaining as int) + bytes@,
        decreases remaining,
    {
        assert((0x80 | (remaining & 0x7F)) as u8 == 128 + remaining % 128 && remaining >> 7u32 == remaining / 128)
            by (bit_vector);
        bytes.insert(0, (0x80 | (remaining & 0x7F)) as u8);
        let ghost before = remaining;
        remaining = remaining >> 7u32;
        assert(continuation_groups(before as int) == continuation_groups(remaining as int) + seq![
            (128 + before % 128) as u8,
        ]);
        assert(continuation_groups(before as int) + (bytes@.drop_first()) =~= continuation_groups(
            remaining as int,
        ) + bytes@);
    }
    bytes
}

impl<'a> J2kWriter<'a> {
    /// Writes a PLT segment with the given packet lengths; nothing for none.
    pub fn write_plt(&mut self, packet_lengths: &[u32]) -> (r: Result<(), JpeglsError>)
        requires
            old(self).wf(),
            (1 + plt_lengths(packet_lengths@).len()) % 65536 + 2 <= u16::MAX,
        ensures
            packet_lengths@.len() == 0 ==> r is Ok && *final(self) == *old(self),
            packet_lengths@.len() > 0 ==> old(self).appended(
                final(self),
                marker_bytes(JpegMarkerCode::PacketLengths) + be16(
                    ((1 + plt_lengths(packet_lengths@).len()) % 65536 + 2) as int,
                ) + seq![0u8] + plt_lengths(packet_lengths@),
                r,
            ),
            final(final(self).writer.destination)@ == final(old(self).writer.destination)@,
    {
        if packet_lengths.len() == 0 {
            return Ok(());
        }
        let ghost o = self.out();
        self.writer.write_marker(JpegMarkerCode::PacketLengths)?;
        let mut encoded_lengths: Vec<u8> = Vec::new();
        let mut k: usize = 0;
        while k < packet_lengths.len()
            invariant
                k <= packet_lengths@.len(),
                encoded_lengths@ == plt_lengths(packet_lengths@.take(k as int)),
            decreases packet_lengths@.len() - k,
        {
            let enc = plt_encode(packet_lengths[k]);
            let mut j: usize = 0;
            let ghost before = encoded_lengths@;
            while j < enc.len()
                invariant
                    j <= enc@.len(),
                    encoded_lengths@ == before + enc@.take(j as int),
                decreases enc@.len() - j,
            {
                encoded_lengths.push(enc[j]);
                assert(encoded_lengths@ =~= before + enc@.take(j + 1));
                j = j + 1;
            }
            proof {
                let t = packet_lengths@.take(k + 1);
                assert(t.drop_last() =~= packet_lengths@.take(k as int));
                assert(enc@.take(enc@.len() as int) =~= enc@);
            }
            k = k + 1;
        }
        assert(packet_lengths@.take(packet_lengths@.len() as int) =~= packet_lengths@);
        let n = encoded_lengths.len();
        let field: u16 = (((n % 65536) + 1) % 65536) as u16 + 2;
        assert(((n % 65536) + 1) % 65536 == (1 + n) % 65536);
        self.writer.write_u16(field)?;
        self.writer.write_byte(0)?;
        self.write_bytes(&encoded_lengths)?;
        assert(self.out() =~= o + (marker_bytes(JpegMarkerCode::PacketLengths) + be16(
            ((1 + plt_lengths(packet_lengths@).len()) % 65536 + 2) as int,
        ) + seq![0u8] + plt_lengths(packet_lengths@)));
        Ok(())
    }
}
} // verus!
