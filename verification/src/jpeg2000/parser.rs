//! JPEG 2000 codestream parser: the main header (SOC, SIZ, COD, QCD, CAP, RGN)
//! and tile-part headers (SOT up to SOD).
use crate::error::JpeglsError;
use crate::jpeg2000::decoder::marker_scan;
use crate::jpeg2000::image::{J2kCap, J2kCod, J2kComponentInfo, J2kImage, J2kQcd, J2kRoi};
use crate::jpeg_marker_code::{is_marker_code, spec_marker_code, JpegMarkerCode};
use crate::jpeg_stream_reader::{be_u16_at, be_u32_at, JpegStreamReader};
use vstd::prelude::*;

verus! {

/// The component information that SIZ codes in the three bytes at `q`.
pub open spec fn siz_component(d: Seq<u8>, q: int) -> J2kComponentInfo {
    J2kComponentInfo {
        depth: ((d[q] & 0x7F) + 1) as u8,
        is_signed: d[q] & 0x80 != 0,
        dx: d[q + 1],
        dy: d[q + 2],
    }
}

/// Number of precinct sizes a COD segment carries, after its fixed fields.
pub open spec fn cod_precinct_count(scod: u8, levels: u8) -> int {
    if scod & 1 != 0 { levels + 1 } else { 0 }
}

/// Whether QCD style `sqcd` codes its step sizes on 16 bits (scalar expounded).
pub open spec fn qcd_is_16bit(sqcd: u8) -> bool {
    sqcd & 0x1F == 2
}

/// Step size `k` of the QCD segment whose length field is at `p`, as a 16-bit value.
pub open spec fn qcd_step_at(d: Seq<u8>, p: int, k: int) -> u16 {
    if qcd_is_16bit(d[p + 2]) {
        be_u16_at(d, p + 3 + 2 * k) as u16
    } else {
        (d[p + 3 + k] * 256) as u16
    }
}

/// Number of step sizes in the QCD segment of length `len` and style `sqcd`.
pub open spec fn qcd_step_count(len: int, sqcd: u8) -> int {
    if qcd_is_16bit(sqcd) { (len - 3) / 2 } else { len - 3 }
}

/// How far a read position may still move: used to bound header loops.
pub open spec fn read_room(pos: int, len: int) -> int {
    if pos <= len { len - pos + 1 } else { 0 }
}

/// Where marker segment `m`, whose length field is at `q` of `d`, ends once read: COD
/// and QCD are read, and in the main header (`main`) SIZ, CAP and RGN too; any other
/// segment is skipped by its length. `None` when it cannot be read.
pub open spec fn segment_end(d: Seq<u8>, q: int, m: u8, main: bool) -> Option<int> {
    let len = be_u16_at(d, q);
    if m == 0x52 {
        let pc = cod_precinct_count(d[q + 2], d[q + 7]);
        if q + 2 <= d.len() && len >= 12 && q + 12 + pc <= d.len() {
            Some(q + if len > 12 + pc { len } else { 12 + pc })
        } else {
            None
        }
    } else if m == 0x5C {
        let n = qcd_step_count(len, d[q + 2]);
        let width = if qcd_is_16bit(d[q + 2]) { 2int } else { 1int };
        if q + 2 <= d.len() && len >= 3 && q + 3 + n * width <= d.len() {
            Some(q + len)
        } else {
            None
        }
    } else if main && m == 0x51 {
        let comps = be_u16_at(d, q + 36);
        if q + 38 <= d.len() && q + 38 + 3 * comps <= d.len() {
            Some(q + 38 + 3 * comps)
        } else {
            None
        }
    } else if main && m == 0x50 {
        if q + 2 <= d.len() && len >= 6 && q + 6 + 2 * ((len - 6) / 2) <= d.len() {
            Some(q + len)
        } else {
            None
        }
    } else if main && m == 0x5E {
        if q + 2 <= d.len() && len >= 5 && q + 5 <= d.len() {
            Some(q + len)
        } else {
            None
        }
    } else if q + 2 <= d.len() && len >= 2 {
        Some(q + len)
    } else {
        None
    }
}

/// Where the marker segments from `p` of `d` end: the position just after the SOT marker
/// that closes the main header (`main`), or after the SOD marker that closes a tile-part
/// header. `None` when a segment cannot be read, a byte that should start a marker is not
/// 0xFF, a marker code is unknown, or the data ends first.
pub open spec fn segments_end(d: Seq<u8>, p: int, main: bool) -> Option<int>
    decreases read_room(p, d.len() as int),
{
    if p < 0 || p + 2 > d.len() || d[p] != 0xFF {
        None
    } else if !main && d[p + 1] == 0x93 {
        Some(p + 2)
    } else if !is_marker_code(d[p + 1]) {
        None
    } else if main && d[p + 1] == 0x90 {
        Some(p + 2)
    } else {
        match segment_end(d, p + 2, d[p + 1], main) {
            Some(e) => if e > p {
                segments_end(d, e, main)
            } else {
                None
            },
            None => None,
        }
    }
}

/// Whether the tile-parts from `p`, just after an SOT marker, read through: the tile-part
/// header reads, and then its Psot is 0, or the scan of the data after it finds EOC, or it
/// finds SOT and the tile-parts from there read through.
pub open spec fn tile_parts_ok(d: Seq<u8>, p: int) -> bool
    decreases read_room(p, d.len() as int),
{
    if p + 10 <= d.len() {
        match segments_end(d, p + 10, false) {
            Some(e) => be_u32_at(d, p + 4) == 0 || match marker_scan(d, e) {
                Some((sot, n)) => if !sot {
                    true
                } else if n > p {
                    tile_parts_ok(d, n)
                } else {
                    false
                },
                None => false,
            },
            None => false,
        }
    } else {
        false
    }
}

/// Bytes left to read; none once the position has passed the end.
fn bytes_left(reader: &JpegStreamReader) -> (r: usize)
    ensures
        r == if reader.pos() <= reader.data().len() { reader.data().len() - reader.pos() } else { 0 },
{
    let n = reader.source.len();
    if reader.position <= n {
        n - reader.position
    } else {
        0
    }
}

/// Reads marker segments into an image description.
pub struct J2kParser<'a, 'b> {
    /// The codestream.
    pub reader: &'b mut JpegStreamReader<'a>,
    /// What has been read.
    pub image: Box<J2kImage>,
}

impl<'a, 'b> J2kParser<'a, 'b> {
    /// The codestream bytes.
    pub open spec fn data(&self) -> Seq<u8> {
        self.reader.data()
    }

    /// The read position.
    pub open spec fn pos(&self) -> int {
        self.reader.pos()
    }

    /// A parser over `reader` with an empty image.
    pub fn new(reader: &'b mut JpegStreamReader<'a>) -> (r: Self)
        ensures
            *r.reader == *old(reader),
            *final(reader) == *final(r.reader),
            r.image.is_empty_image(),
    {
        Self { reader, image: Box::new(J2kImage::default()) }
    }

    /// Reads a SIZ segment (after its marker): the image and tile geometry, then
    /// the depth, signedness and subsampling of each component, appended to `components`.
    pub fn parse_siz(&mut self) -> (r: Result<(), JpeglsError>)
        requires
            old(self).reader.wf(),
        ensures
            final(self).reader.same_but_pos(old(self).reader),
            ({
                let d = old(self).data();
                let p = old(self).pos();
                let comps = be_u16_at(d, p + 36);
                &&& r is Ok <==> p + 38 <= d.len() && p + 38 + 3 * comps <= d.len()
                &&& r is Err ==> r == Err::<(), JpeglsError>(JpeglsError::InvalidData)
                &&& r is Ok ==> {
                    let im = final(self).image;
                    &&& im.width == be_u32_at(d, p + 4)
                    &&& im.height == be_u32_at(d, p + 8)
                    &&& im.x_origin == be_u32_at(d, p + 12)
                    &&& im.y_origin == be_u32_at(d, p + 16)
                    &&& im.tile_width == be_u32_at(d, p + 20)
                    &&& im.tile_height == be_u32_at(d, p + 24)
                    &&& im.tile_x_origin == be_u32_at(d, p + 28)
                    &&& im.tile_y_origin == be_u32_at(d, p + 32)
                    &&& im.component_count == comps
                    &&& im.components@ == old(self).image.components@ + Seq::new(
                        comps as nat,
                        |c: int| siz_component(d, p + 38 + 3 * c),
                    )
                    &&& im.cod == old(self).image.cod
                    &&& im.qcd == old(self).image.qcd
                    &&& im.roi == old(self).image.roi
                    &&& final(self).pos() == p + 38 + 3 * comps
                }
            }),
    {
        let ghost d = self.data();
        let ghost p = self.pos();
        let _len = self.reader.read_u16()?;
        let _caps = self.reader.read_u16()?;
        self.image.width = self.reader.read_u32()?;
        self.image.height = self.reader.read_u32()?;
        self.image.x_origin = self.reader.read_u32()?;
        self.image.y_origin = self.reader.read_u32()?;
        self.image.tile_width = self.reader.read_u32()?;
        self.image.tile_height = self.reader.read_u32()?;
        self.image.tile_x_origin = self.reader.read_u32()?;
        self.image.tile_y_origin = self.reader.read_u32()?;
        let comps = self.reader.read_u16()?;
        self.image.component_count = comps as u32;
        let ghost base = self.image.components@;
        let mut c: u16 = 0;
        while c < comps
            invariant
                self.reader.same_but_pos(old(self).reader),
                self.data() == d,
                d == old(self).data(),
                p == old(self).pos(),
                d.len() <= isize::MAX,
                p + 38 <= d.len(),
                comps == be_u16_at(d, p + 36),
                c <= comps,
                self.pos() == p + 38 + 3 * c,
                self.pos() <= d.len(),
                self.image.components@ == base + Seq::new(c as nat, |k: int| siz_component(d, p + 38 + 3 * k)),
                self.image.width == be_u32_at(d, p + 4),
                self.image.height == be_u32_at(d, p + 8),
                self.image.x_origin == be_u32_at(d, p + 12),
                self.image.y_origin == be_u32_at(d, p + 16),
                self.image.tile_width == be_u32_at(d, p + 20),
                self.image.tile_height == be_u32_at(d, p + 24),
                self.image.tile_x_origin == be_u32_at(d, p + 28),
                self.image.tile_y_origin == be_u32_at(d, p + 32),
                self.image.component_count == comps,
                self.image.cod == old(self).image.cod,
                self.image.qcd == old(self).image.qcd,
                self.image.roi == old(self).image.roi,
                base == old(self).image.components@,
            decreases comps - c,
        {
            let depth_byte = match self.reader.read_u8() {
                Ok(b) => b,
                Err(e) => return Err(e),
            };
            assert(depth_byte & 0x7F <= 0x7F) by (bit_vector);
            let depth = (depth_byte & 0x7F) + 1;
            let is_signed = (depth_byte & 0x80) != 0;
            let sub_x = match self.reader.read_u8() {
                Ok(b) => b,
                Err(e) => return Err(e),
            };
            let sub_y = match self.reader.read_u8() {
                Ok(b) => b,
                Err(e) => return Err(e),
            };
            self.image.components.push(J2kComponentInfo { depth, is_signed, dx: sub_x, dy: sub_y });
            proof {
                assert(self.image.components@ =~= base + Seq::new(
                    (c + 1) as nat,
                    |k: int| siz_component(d, p + 38 + 3 * k),
                ));
            }
            c = c + 1;
        }
        Ok(())
    }

    /// Reads a COD segment (after its marker); a length under 12 is `InvalidData`.
    /// Precinct sizes follow when bit 0 of Scod is set; bytes the length leaves are skipped.
    pub fn parse_cod(&mut self) -> (r: Result<(), JpeglsError>)
        requires
            old(self).reader.wf(),
        ensures
            final(self).reader.same_but_pos(old(self).reader),
            ({
                let d = old(self).data();
                let p = old(self).pos();
                let len = be_u16_at(d, p);
                let pc = cod_precinct_count(d[p + 2], d[p + 7]);
                &&& r is Ok <==> p + 2 <= d.len() && len >= 12 && p + 12 + pc <= d.len()
                &&& r is Err ==> r == Err::<(), JpeglsError>(JpeglsError::InvalidData)
                &&& r is Ok ==> {
                    let cod = final(self).image.cod->Some_0;
                    &&& final(self).image.cod is Some
                    &&& cod.coding_style == d[p + 2]
                    &&& cod.progression_order == d[p + 3]
                    &&& cod.number_of_layers == be_u16_at(d, p + 4)
                    &&& cod.mct == d[p + 6]
                    &&& cod.decomposition_levels == d[p + 7]
                    &&& cod.codeblock_width_exp == d[p + 8]
                    &&& cod.codeblock_height_exp == d[p + 9]
                    &&& cod.code_block_style == d[p + 10]
                    &&& cod.transformation == d[p + 11]
                    &&& cod.precinct_sizes@ == d.subrange(p + 12, p + 12 + pc)
                    &&& final(self).pos() == p + if len > 12 + pc { len } else { 12 + pc }
                    &&& final(self).image.width == old(self).image.width
                    &&& final(self).image.height == old(self).image.height
                    &&& final(self).image.component_count == old(self).image.component_count
                    &&& final(self).image.components@ == old(self).image.components@
                    &&& final(self).image.qcd == old(self).image.qcd
                }
            }),
    {
        let ghost d = self.data();
        let ghost p = self.pos();
        let len = self.reader.read_u16()?;
        if len < 12 {
            return Err(JpeglsError::InvalidData);
        }
        let scod = self.reader.read_u8()?;
        let sprog = self.reader.read_u8()?;
        let nlayers = self.reader.read_u16()?;
        let mct = self.reader.read_u8()?;
        let decomposition_levels = self.reader.read_u8()?;
        let codeblock_width_exp = self.reader.read_u8()?;
        let codeblock_height_exp = self.reader.read_u8()?;
        let code_block_style = self.reader.read_u8()?;
        let transformation = self.reader.read_u8()?;
        let mut precinct_sizes: Vec<u8> = Vec::new();
        if (scod & 0x01) != 0 {
            let count = decomposition_levels as usize + 1;
            let mut k: usize = 0;
            while k < count
                invariant
                    self.reader.same_but_pos(old(self).reader),
                    self.data() == d,
                    d == old(self).data(),
                    p == old(self).pos(),
                    p + 12 <= d.len(),
                    count == cod_precinct_count(scod, decomposition_levels),
                    len == be_u16_at(d, p),
                    len >= 12,
                    scod == d[p + 2],
                    decomposition_levels == d[p + 7],
                    k <= count,
                    count <= 256,
                    self.pos() == p + 12 + k,
                    self.pos() <= d.len(),
                    precinct_sizes@ == d.subrange(p + 12, p + 12 + k),
                    self.image == old(self).image,
                decreases count - k,
            {
                let b = match self.reader.read_u8() {
                    Ok(b) => b,
                    Err(e) => return Err(e),
                };
                precinct_sizes.push(b);
                assert(precinct_sizes@ =~= d.subrange(p + 12, p + 12 + k + 1));
                k = k + 1;
            }
        } else {
            assert(precinct_sizes@ =~= d.subrange(p + 12, p + 12));
        }
        assert(precinct_sizes@.len() <= 256);
        let parsed_bytes = 12 + precinct_sizes.len();
        let remaining = if (len as usize) > parsed_bytes { len as usize - parsed_bytes } else { 0 };
        if remaining > 0 {
            self.reader.advance(remaining);
        }
        self.image.cod = Some(J2kCod {
            coding_style: scod,
            progression_order: sprog,
            number_of_layers: nlayers,
            mct,
            decomposition_levels,
            codeblock_width_exp,
            codeblock_height_exp,
            code_block_style,
            transformation,
            precinct_sizes,
        });
        Ok(())
    }

    /// Reads a QCD segment (after its marker); a length under 3 is `InvalidData`. The step
    /// sizes take two bytes each for scalar expounded quantization, else one, held as the
    /// high byte of a 16-bit value; a byte the length leaves over is skipped.
    pub fn parse_qcd(&mut self) -> (r: Result<(), JpeglsError>)
        requires
            old(self).reader.wf(),
        ensures
            final(self).reader.same_but_pos(old(self).reader),
            ({
                let d = old(self).data();
                let p = old(self).pos();
                let len = be_u16_at(d, p);
                let n = qcd_step_count(len, d[p + 2]);
                let width = if qcd_is_16bit(d[p + 2]) { 2int } else { 1int };
                &&& r is Ok <==> p + 2 <= d.len() && len >= 3 && p + 3 + n * width <= d.len()
                &&& r is Err ==> r == Err::<(), JpeglsError>(JpeglsError::InvalidData)
                &&& r is Ok ==> {
                    let qcd = final(self).image.qcd->Some_0;
                    &&& final(self).image.qcd is Some
                    &&& qcd.quant_style == d[p + 2]
                    &&& qcd.step_sizes@ == Seq::new(n as nat, |k: int| qcd_step_at(d, p, k))
                    &&& final(self).pos() == p + len
                    &&& final(self).image.width == old(self).image.width
                    &&& final(self).image.height == old(self).image.height
                    &&& final(self).image.component_count == old(self).image.component_count
                    &&& final(self).image.components@ == old(self).image.components@
                    &&& final(self).image.cod == old(self).image.cod
                }
            }),
    {
        let ghost d = self.data();
        let ghost p = self.pos();
        let len = self.reader.read_u16()?;
        if len < 3 {
            return Err(JpeglsError::InvalidData);
        }
        let sqcd = self.reader.read_u8()?;
        let mut bytes_left: usize = len as usize - 3;
        let quant_type = sqcd & 0x1F;
        let is_16bit = quant_type == 0x02;
        let step_size_len: usize = if is_16bit { 2 } else { 1 };
        let ghost n = qcd_step_count(len as int, sqcd);
        let mut step_sizes: Vec<u16> = Vec::new();
        while bytes_left >= step_size_len
            invariant
                self.reader.same_but_pos(old(self).reader),
                self.data() == d,
                d == old(self).data(),
                p == old(self).pos(),
                d.len() <= isize::MAX,
                p + 3 <= d.len(),
                len == be_u16_at(d, p),
                len >= 3,
                sqcd == d[p + 2],
                is_16bit == qcd_is_16bit(sqcd),
                step_size_len == if is_16bit { 2usize } else { 1usize },
                n == qcd_step_count(len as int, sqcd),
                bytes_left + step_sizes@.len() * step_size_len == len - 3,
                self.pos() == p + 3 + step_sizes@.len() * step_size_len,
                self.pos() <= d.len(),
                step_sizes@ == Seq::new(step_sizes@.len(), |k: int| qcd_step_at(d, p, k)),
                self.image == old(self).image,
            decreases bytes_left,
        {
            let step = if is_16bit {
                match self.reader.read_u16() {
                    Ok(v) => v,
                    Err(e) => return Err(e),
                }
            } else {
                let b = match self.reader.read_u8() {
                    Ok(b) => b,
                    Err(e) => return Err(e),
                };
                assert((b as u16) << 8u16 == b * 256) by (bit_vector)
                    requires
                        b < 256,
                ;
                (b as u16) << 8u16
            };
            step_sizes.push(step);
            assert(step_sizes@ =~= Seq::new(step_sizes@.len(), |k: int| qcd_step_at(d, p, k)));
            bytes_left = bytes_left - step_size_len;
        }
        proof {
            if is_16bit {
                assert(step_sizes@.len() == (len - 3) / 2);
            }
        }
        if bytes_left > 0 {
            self.reader.advance(bytes_left);
        }
        self.image.qcd = Some(J2kQcd { quant_style: sqcd, step_sizes });
        Ok(())
    }

    /// Reads a CAP segment (after its marker); a length under 6 is `InvalidData`. Pcap,
    /// then as many 16-bit Ccap values as the length holds; a byte left over is skipped.
    pub fn parse_cap(&mut self) -> (r: Result<(), JpeglsError>)
        requires
            old(self).reader.wf(),
        ensures
            final(self).reader.same_but_pos(old(self).reader),
            ({
                let d = old(self).data();
                let p = old(self).pos();
                let len = be_u16_at(d, p);
                let n = (len - 6) / 2;
                &&& r is Ok <==> p + 2 <= d.len() && len >= 6 && p + 6 + 2 * n <= d.len()
                &&& r is Err ==> r == Err::<(), JpeglsError>(JpeglsError::InvalidData)
                &&& r is Ok ==> {
                    let cap = final(self).image.cap->Some_0;
                    &&& final(self).image.cap is Some
                    &&& cap.pcap == be_u32_at(d, p + 2)
                    &&& cap.ccap@ == Seq::new(n as nat, |k: int| be_u16_at(d, p + 6 + 2 * k) as u16)
                    &&& final(self).pos() == p + len
                    &&& final(self).image.width == old(self).image.width
                    &&& final(self).image.height == old(self).image.height
                    &&& final(self).image.components@ == old(self).image.components@
                    &&& final(self).image.cod == old(self).image.cod
                    &&& final(self).image.qcd == old(self).image.qcd
                }
            }),
    {
        let ghost d = self.data();
        let ghost p = self.pos();
        let len = self.reader.read_u16()?;
        if len < 6 {
            return Err(JpeglsError::InvalidData);
        }
        let pcap = self.reader.read_u32()?;
        let mut bytes_left: usize = len as usize - 6;
        let mut ccap: Vec<u16> = Vec::new();
        while bytes_left >= 2
            invariant
                self.reader.same_but_pos(old(self).reader),
                self.data() == d,
                d == old(self).data(),
                p == old(self).pos(),
                d.len() <= isize::MAX,
                p + 6 <= d.len(),
                len == be_u16_at(d, p),
                len >= 6,
                pcap == be_u32_at(d, p + 2),
                bytes_left + 2 * ccap@.len() == len - 6,
                self.pos() == p + 6 + 2 * ccap@.len(),
                self.pos() <= d.len(),
                ccap@ == Seq::new(ccap@.len(), |k: int| be_u16_at(d, p + 6 + 2 * k) as u16),
                self.image == old(self).image,
            decreases bytes_left,
        {
            let c = match self.reader.read_u16() {
                Ok(v) => v,
                Err(e) => return Err(e),
            };
            ccap.push(c);
            assert(ccap@ =~= Seq::new(ccap@.len(), |k: int| be_u16_at(d, p + 6 + 2 * k) as u16));
            bytes_left = bytes_left - 2;
        }
        if bytes_left > 0 {
            self.reader.advance(bytes_left);
        }
        self.image.cap = Some(J2kCap { pcap, ccap });
        Ok(())
    }

    /// Reads an RGN segment (after its marker); a length under 5 is `InvalidData`.
    pub fn parse_rgn(&mut self) -> (r: Result<(), JpeglsError>)
        requires
            old(self).reader.wf(),
        ensures
            final(self).reader.same_but_pos(old(self).reader),
            ({
                let d = old(self).data();
                let p = old(self).pos();
                let len = be_u16_at(d, p);
                &&& r is Ok <==> p + 2 <= d.len() && len >= 5 && p + 5 <= d.len()
                &&& r is Err ==> r == Err::<(), JpeglsError>(JpeglsError::InvalidData)
                &&& r is Ok ==> final(self).image.roi == Some(
                    J2kRoi { component_index: d[p + 2], roi_style: d[p + 3], shift_value: d[p + 4] },
                ) && final(self).pos() == p + len && final(self).image.width == old(self).image.width
                    && final(self).image.components@ == old(self).image.components@ && final(self).image.cod
                    == old(self).image.cod && final(self).image.qcd == old(self).image.qcd
            }),
    {
        let len = self.reader.read_u16()?;
        if len < 5 {
            return Err(JpeglsError::InvalidData);
        }
        let component_index = self.reader.read_u8()?;
        let roi_style = self.reader.read_u8()?;
        let shift_value = self.reader.read_u8()?;
        let remaining = len as usize - 5;
        if remaining > 0 {
            self.reader.advance(remaining);
        }
        self.image.roi = Some(J2kRoi { component_index, roi_style, shift_value });
        Ok(())
    }
}


impl<'a, 'b> J2kParser<'a, 'b> {
    /// Skips a marker segment: its length (at least 2) and what it covers.
    fn skip_marker_segment(&mut self) -> (r: Result<(), JpeglsError>)
        requires
            old(self).reader.wf(),
            old(self).pos() <= old(self).data().len(),
        ensures
            final(self).reader.same_but_pos(old(self).reader),
            *final(self).image == *old(self).image,
            r is Ok <==> old(self).pos() + 2 <= old(self).data().len() && be_u16_at(old(self).data(), old(self).pos())
                >= 2,
            r is Ok ==> final(self).pos() == old(self).pos() + be_u16_at(old(self).data(), old(self).pos()),
            r is Err ==> r == Err::<(), JpeglsError>(JpeglsError::InvalidData),
    {
        let len = self.reader.read_u16()?;
        if len < 2 {
            return Err(JpeglsError::InvalidData);
        }
        self.reader.advance((len - 2) as usize);
        Ok(())
    }

    /// Reads the main header: SOC, then marker segments (SIZ, COD, QCD, CAP, RGN read,
    /// others skipped) up to the first SOT, whose marker it returns.
    pub fn parse_main_header(&mut self) -> (r: Result<JpegMarkerCode, JpeglsError>)
        requires
            old(self).reader.wf(),
        ensures
            final(self).reader.same_but_pos(old(self).reader),
            r is Err ==> r == Err::<JpegMarkerCode, JpeglsError>(JpeglsError::InvalidData),
            r is Ok ==> r == Ok::<JpegMarkerCode, JpeglsError>(JpegMarkerCode::StartOfTile)
                && old(self).pos() + 2 <= old(self).data().len()
                && be_u16_at(old(self).data(), old(self).pos()) == 0xFF4F
                && 2 <= final(self).pos() - old(self).pos() && final(self).pos() <= old(self).data().len()
                && old(self).data()[final(self).pos() - 2] == 0xFF && old(self).data()[final(self).pos() - 1] == 0x90,
            r is Ok <==> old(self).pos() + 2 <= old(self).data().len() && be_u16_at(old(self).data(), old(self).pos())
                == 0xFF4F && segments_end(old(self).data(), old(self).pos() + 2, true) is Some,
            r is Ok ==> final(self).pos() == segments_end(old(self).data(), old(self).pos() + 2, true)->Some_0,
    {
        let soc = self.reader.read_u16()?;
        if soc != 0xFF4F {
            return Err(JpeglsError::InvalidData);
        }
        loop
            invariant
                self.reader.same_but_pos(old(self).reader),
                self.reader.wf(),
                old(self).pos() + 2 <= old(self).data().len(),
                be_u16_at(old(self).data(), old(self).pos()) == 0xFF4F,
                self.pos() >= old(self).pos() + 2,
                self.pos() <= self.data().len() + 65536,
                segments_end(self.data(), self.pos() as int, true) == segments_end(
                    old(self).data(),
                    old(self).pos() + 2,
                    true,
                ),
            decreases read_room(self.pos(), self.data().len() as int),
        {
            let ghost d = self.data();
            let ghost x = self.pos() as int;
            self.reader.align_to_byte();
            let rem = bytes_left(self.reader);
            if rem < 2 {
                if rem == 0 {
                    return Err(JpeglsError::InvalidData);
                }
            }
            let b1 = self.reader.read_u8()?;
            if b1 != 0xFF {
                return Err(JpeglsError::InvalidData);
            }
            let b2 = self.reader.read_u8()?;
            let marker = match JpegMarkerCode::try_from(b2) {
                Ok(m) => m,
                Err(e) => {
                    return Err(e);
                },
            };
            assert(is_marker_code(b2)) by {
                assert(spec_marker_code(marker) == b2);
            }
            let ghost before = self.pos();
            match marker {
                JpegMarkerCode::ImageAndTileSize => self.parse_siz()?,
                JpegMarkerCode::CodingStyleDefault => self.parse_cod()?,
                JpegMarkerCode::QuantizationDefault => self.parse_qcd()?,
                JpegMarkerCode::StartOfTile => {
                    assert(segments_end(d, x, true) == Some(x + 2));
                    return Ok(JpegMarkerCode::StartOfTile);
                },
                JpegMarkerCode::Capability => self.parse_cap()?,
                JpegMarkerCode::RegionOfInterest => self.parse_rgn()?,
                _ => self.skip_marker_segment()?,
            }
            assert(self.pos() >= before);
            assert(segment_end(d, x + 2, b2, true) == Some(self.pos() as int));
            assert(segments_end(d, x, true) == segments_end(d, self.pos() as int, true));
        }
    }

    /// Reads a tile-part header after its SOT marker: Lsot, Isot, Psot, TPsot, TNsot,
    /// then marker segments (COD and QCD read, others skipped) up to SOD.
    /// Returns Psot (the tile-part length) and Isot (the tile index).
    pub fn parse_tile_part_header(&mut self) -> (r: Result<(u32, u16), JpeglsError>)
        requires
            old(self).reader.wf(),
        ensures
            final(self).reader.same_but_pos(old(self).reader),
            r is Err ==> r == Err::<(u32, u16), JpeglsError>(JpeglsError::InvalidData),
            r matches Ok((psot, isot)) ==> {
                let d = old(self).data();
                let p = old(self).pos();
                &&& p + 10 <= d.len()
                &&& isot == be_u16_at(d, p + 2)
                &&& psot == be_u32_at(d, p + 4)
                &&& p + 12 <= final(self).pos() <= d.len()
                &&& d[final(self).pos() - 2] == 0xFF
                &&& d[final(self).pos() - 1] == 0x93
            },
            r is Ok <==> old(self).pos() + 10 <= old(self).data().len() && segments_end(
                old(self).data(),
                old(self).pos() + 10,
                false,
            ) is Some,
            r is Ok ==> final(self).pos() == segments_end(old(self).data(), old(self).pos() + 10, false)->Some_0,
    {
        let _lsot = self.reader.read_u16()?;
        let isot = self.reader.read_u16()?;
        let psot = self.reader.read_u32()?;
        let _tpsot = self.reader.read_u8()?;
        let _tnsot = self.reader.read_u8()?;
        loop
            invariant_except_break
                segments_end(self.data(), self.pos() as int, false) == segments_end(
                    old(self).data(),
                    old(self).pos() + 10,
                    false,
                ),
            invariant
                self.reader.same_but_pos(old(self).reader),
                self.reader.wf(),
                old(self).pos() + 10 <= old(self).data().len(),
                isot == be_u16_at(old(self).data(), old(self).pos() + 2),
                psot == be_u32_at(old(self).data(), old(self).pos() + 4),
                self.pos() >= old(self).pos() + 10,
                self.pos() <= self.data().len() + 65536,
            ensures
                old(self).pos() + 12 <= self.pos() <= self.data().len(),
                self.data()[self.pos() - 2] == 0xFF,
                self.data()[self.pos() - 1] == 0x93,
                segments_end(old(self).data(), old(self).pos() + 10, false) == Some(self.pos() as int),
            decreases read_room(self.pos(), self.data().len() as int),
        {
            let ghost d = self.data();
            let ghost x = self.pos() as int;
            let rem = bytes_left(self.reader);
            if rem < 2 {
                return Err(JpeglsError::InvalidData);
            }
            let b1 = self.reader.read_u8()?;
            if b1 != 0xFF {
                return Err(JpeglsError::InvalidData);
            }
            let b2 = self.reader.read_u8()?;
            if b2 == 0x93 {
                assert(segments_end(d, x, false) == Some(x + 2));
                break;
            }
            let marker = match JpegMarkerCode::try_from(b2) {
                Ok(m) => m,
                Err(e) => {
                    return Err(e);
                },
            };
            let ghost before = self.pos();
            match marker {
                JpegMarkerCode::CodingStyleDefault => self.parse_cod()?,
                JpegMarkerCode::QuantizationDefault => self.parse_qcd()?,
                _ => self.skip_marker_segment()?,
            }
            assert(self.pos() >= before);
            assert(segment_end(d, x + 2, b2, false) == Some(self.pos() as int));
            assert(is_marker_code(b2)) by {
                assert(spec_marker_code(marker) == b2);
            }
            assert(segments_end(d, x, false) == segments_end(d, self.pos() as int, false));
        }
        Ok((psot, isot))
    }

    /// Reads a whole codestream: the main header, then each tile-part header, scanning
    /// the tile data that follows for the next SOT or EOC marker.
    pub fn parse_codestream(&mut self) -> (r: Result<(), JpeglsError>)
        requires
            old(self).reader.wf(),
        ensures
            final(self).reader.same_but_pos(old(self).reader),
            r is Err ==> r == Err::<(), JpeglsError>(JpeglsError::InvalidData),
            r is Ok ==> old(self).pos() + 2 <= old(self).data().len() && be_u16_at(old(self).data(), old(self).pos())
                == 0xFF4F,
            r is Ok <==> old(self).pos() + 2 <= old(self).data().len() && be_u16_at(old(self).data(), old(self).pos())
                == 0xFF4F && match segments_end(old(self).data(), old(self).pos() + 2, true) {
                Some(e) => tile_parts_ok(old(self).data(), e),
                None => false,
            },
    {
        let mut marker = self.parse_main_header()?;
        let ghost d = self.data();
        let ghost goal = tile_parts_ok(d, self.pos() as int);
        loop
            invariant_except_break
                marker == JpegMarkerCode::StartOfTile || marker == JpegMarkerCode::EndOfImage,
                marker == JpegMarkerCode::StartOfTile ==> tile_parts_ok(d, self.pos() as int) == goal,
                marker == JpegMarkerCode::EndOfImage ==> goal,
            invariant
                self.reader.same_but_pos(old(self).reader),
                self.reader.wf(),
                old(self).pos() + 2 <= old(self).data().len(),
                be_u16_at(old(self).data(), old(self).pos()) == 0xFF4F,
                d == self.data(),
                goal == match segments_end(old(self).data(), old(self).pos() + 2, true) {
                    Some(e) => tile_parts_ok(old(self).data(), e),
                    None => false,
                },
            ensures
                self.reader.same_but_pos(old(self).reader),
                goal,
            decreases read_room(self.pos(), self.data().len() as int),
        {
            if marker == JpegMarkerCode::EndOfImage {
                break;
            }
            if marker == JpegMarkerCode::StartOfTile {
                let ghost before = self.pos();
                let (psot, _isot) = self.parse_tile_part_header()?;
                let ghost e1 = self.pos() as int;
                if psot == 0 {
                    assert(tile_parts_ok(d, before as int));
                    break;
                } else {
                    loop
                        invariant_except_break
                            marker_scan(d, self.pos() as int) == marker_scan(d, e1),
                            marker == JpegMarkerCode::StartOfTile,
                        invariant
                            self.reader.same_but_pos(old(self).reader),
                            self.reader.wf(),
                            old(self).pos() + 2 <= old(self).data().len(),
                            be_u16_at(old(self).data(), old(self).pos()) == 0xFF4F,
                            before + 12 <= self.pos() <= self.data().len(),
                            d == self.data(),
                            before + 10 <= d.len(),
                            segments_end(d, before + 10, false) == Some(e1),
                            be_u32_at(d, before + 4) != 0,
                            tile_parts_ok(d, before as int) == goal,
                        ensures
                            self.reader.same_but_pos(old(self).reader),
                            self.reader.wf(),
                            d == self.data(),
                            marker == JpegMarkerCode::StartOfTile || marker == JpegMarkerCode::EndOfImage,
                            marker == JpegMarkerCode::StartOfTile ==> tile_parts_ok(d, self.pos() as int) == goal,
                            marker == JpegMarkerCode::EndOfImage ==> goal,
                        decreases self.data().len() - self.pos(),
                    {
                        let ghost y = self.pos() as int;
                        let rem = bytes_left(self.reader);
                        if rem < 2 {
                            assert(marker_scan(d, y) is None) by {
                                if y < d.len() && d[y] != 0xFF {
                                    assert(marker_scan(d, y + 1) is None);
                                }
                            }
                            assert(tile_parts_ok(d, y) == false);
                            assert(tile_parts_ok(d, before as int) == false);
                            break;
                        }
                        let b = self.reader.read_u8()?;
                        if b == 0xFF {
                            let b2 = self.reader.read_u8()?;
                            if b2 == 0x90 {
                                marker = JpegMarkerCode::StartOfTile;
                                assert(marker_scan(d, y) == Some((true, y + 2)));
                                assert(tile_parts_ok(d, before as int) == tile_parts_ok(d, y + 2));
                                break;
                            } else if b2 == 0xD9 {
                                marker = JpegMarkerCode::EndOfImage;
                                assert(marker_scan(d, y) == Some((false, y + 2)));
                                assert(tile_parts_ok(d, before as int));
                                break;
                            }
                            assert(marker_scan(d, y) == marker_scan(d, y + 2));
                        } else {
                            assert(marker_scan(d, y) == marker_scan(d, y + 1));
                        }
                    }
                }
            } else {
                break;
            }
        }
        Ok(())
    }
}
} // verus!
