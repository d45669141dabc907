//! JP2 file format boxes (ISO/IEC 15444-1 Annex I): finding the codestream and the
//! ICC profile in a JP2 container.
use crate::error::JpeglsError;
use crate::jpeg_stream_reader::be_u32_at;
use vstd::prelude::*;

verus! {

/// A box: its length, its type and where its contents lie in the data.
pub struct Jp2Box {
    /// Length of the box, header included.
    pub length: u64,
    /// The four-character type.
    pub box_type: [u8; 4],
    /// The range of the contents in the data.
    pub data_range: std::ops::Range<usize>,
}

/// The twelve bytes of the JP2 signature box.
pub open spec fn jp2_signature() -> Seq<u8> {
    seq![0x00u8, 0x00, 0x00, 0x0C, 0x6A, 0x50, 0x20, 0x20, 0x0D, 0x0A, 0x87, 0x0A]
}

/// The big-endian 64-bit value at `p`.
pub open spec fn be_u64_at(d: Seq<u8>, p: int) -> int {
    be_u32_at(d, p) * 0x1_0000_0000 + be_u32_at(d, p + 4)
}

/// The length of the box at `p`: its 32-bit length field, else (for 1) the 64-bit
/// length after the type, else (for 0) the rest of the data.
pub open spec fn box_length(d: Seq<u8>, p: int) -> int {
    let l = be_u32_at(d, p);
    if l == 1 {
        be_u64_at(d, p + 8)
    } else if l == 0 {
        d.len() - p
    } else {
        l
    }
}

/// Where the contents of the box at `p` start.
pub open spec fn box_data_start(d: Seq<u8>, p: int) -> int {
    if be_u32_at(d, p) == 1 { p + 16 } else { p + 8 }
}

/// The box at `p` can be read: its header lies within the data, and its length moves
/// the position forward without running past the end. A box shorter than its own
/// header is accepted; its contents are then empty.
pub open spec fn box_ok(d: Seq<u8>, p: int) -> bool {
    &&& 0 <= p
    &&& p + 8 <= d.len()
    &&& be_u32_at(d, p) == 1 ==> p + 16 <= d.len()
    &&& 0 < box_length(d, p) <= d.len() - p
}

/// The box at `p` is the one looked for: a `jp2c` box that is not shorter than its
/// header, or (with `icc`) a `colr` box of more than three bytes whose method byte is 2.
pub open spec fn box_wanted(d: Seq<u8>, p: int, icc: bool) -> bool {
    if icc {
        &&& d.subrange(p + 4, p + 8) == seq![0x63u8, 0x6F, 0x6C, 0x72]
        &&& p + box_length(d, p) - box_data_start(d, p) > 3
        &&& d[box_data_start(d, p)] == 2
    } else {
        &&& d.subrange(p + 4, p + 8) == seq![0x6Au8, 0x70, 0x32, 0x63]
        &&& box_data_start(d, p) <= p + box_length(d, p)
    }
}

/// The contents `(start, end)` of the first wanted box from `p` on, walking box by
/// box: `Some(None)` when the boxes end first, `None` when a box before it is not
/// whole.
pub open spec fn first_wanted_box(d: Seq<u8>, p: int, icc: bool) -> Option<Option<(int, int)>>
    decreases d.len() - p,
{
    if p < 0 || p + 8 > d.len() {
        Some(None)
    } else if !box_ok(d, p) {
        None
    } else if box_wanted(d, p, icc) {
        Some(Some((box_data_start(d, p), p + box_length(d, p))))
    } else {
        first_wanted_box(d, p + box_length(d, p), icc)
    }
}

/// Reads the boxes of a JP2 file.
pub struct Jp2Reader<'a> {
    /// The file's bytes.
    pub data: &'a [u8],
    /// Where the next box starts.
    pub position: usize,
}

fn be_u32(d: &[u8], p: usize) -> (r: u32)
    requires
        p + 4 <= d@.len(),
    ensures
        r == be_u32_at(d@, p as int),
{
    let b0 = d[p] as u32;
    let b1 = d[p + 1] as u32;
    let b2 = d[p + 2] as u32;
    let b3 = d[p + 3] as u32;
    b0 * 16777216 + b1 * 65536 + b2 * 256 + b3
}

fn has_signature(d: &[u8]) -> (r: bool)
    requires
        d@.len() >= 12,
    ensures
        r == (d@.subrange(0, 12) == jp2_signature()),
{
    let sig: [u8; 12] = [0x00, 0x00, 0x00, 0x0C, 0x6A, 0x50, 0x20, 0x20, 0x0D, 0x0A, 0x87, 0x0A];
    assert(sig@ =~= jp2_signature());
    let mut i: usize = 0;
    while i < 12
        invariant
            i <= 12,
            d@.len() >= 12,
            sig@ == jp2_signature(),
            forall|k: int| 0 <= k < i ==> d@[k] == sig@[k],
        decreases 12 - i,
    {
        if d[i] != sig[i] {
            assert(d@.subrange(0, 12)[i as int] != jp2_signature()[i as int]);
            return false;
        }
        i = i + 1;
    }
    assert(d@.subrange(0, 12) =~= jp2_signature());
    true
}

fn copy_range(d: &[u8], start: usize, end: usize) -> (r: Vec<u8>)
    requires
        start <= end <= d@.len(),
    ensures
        r@ == d@.subrange(start as int, end as int),
{
    let mut v: Vec<u8> = Vec::new();
    let mut i: usize = start;
    while i < end
        invariant
            start <= i <= end <= d@.len(),
            v@ == d@.subrange(start as int, i as int),
        decreases end - i,
    {
        v.push(d[i]);
        assert(v@ =~= d@.subrange(start as int, i + 1));
        i = i + 1;
    }
    v
}

impl<'a> Jp2Reader<'a> {
    /// The next box never starts past the end of the data.
    pub open spec fn wf(&self) -> bool {
        self.position <= self.data@.len()
    }

    /// A reader at the start of `data`.
    pub fn new(data: &'a [u8]) -> (r: Self)
        ensures
            r.wf(),
            r.data@ == data@,
            r.position == 0,
    {
        Self { data, position: 0 }
    }

    /// Reads the box at the position and moves past it; `None` when fewer than 8 bytes
    /// are left. A length of 1 announces a 64-bit length after the type; a length of 0
    /// runs to the end of the data. A box that runs past the end of the data, or that
    /// does not move the position forward, is `InvalidData`.
    pub fn read_box(&mut self) -> (r: Result<Option<Jp2Box>, JpeglsError>)
        requires
            old(self).wf(),
        ensures
            final(self).wf(),
            final(self).data@ == old(self).data@,
            old(self).position + 8 > old(self).data@.len() ==> (r matches Ok(None)) && final(self).position == old(
                self,
            ).position,
            r matches Ok(Some(b)) ==> {
                let d = old(self).data@;
                let p = old(self).position as int;
                &&& p + 8 <= d.len()
                &&& b.box_type@ == d.subrange(p + 4, p + 8)
                &&& b.data_range.end == final(self).position <= d.len()
                &&& final(self).position > p
                &&& be_u32_at(d, p) == 1 ==> b.length == be_u64_at(d, p + 8) && b.data_range.start == p + 16
                &&& be_u32_at(d, p) == 0 ==> b.length == d.len() - p && b.data_range.start == p + 8
                &&& be_u32_at(d, p) > 1 ==> b.length == be_u32_at(d, p) && b.data_range.start == p + 8
                &&& b.data_range.end == p + b.length
            },
            r matches Err(e) ==> e == JpeglsError::InvalidData,
            old(self).position + 8 <= old(self).data@.len() ==> !(r matches Ok(None)) && (r is Ok <==> box_ok(
                old(self).data@,
                old(self).position as int,
            )),
    {
        let n = self.data.len();
        if n - self.position < 8 {
            return Ok(None);
        }
        let start_pos = self.position;
        let mut length: u64 = be_u32(self.data, start_pos) as u64;
        let box_type: [u8; 4] = [
            self.data[start_pos + 4],
            self.data[start_pos + 5],
            self.data[start_pos + 6],
            self.data[start_pos + 7],
        ];
        assert(box_type@ =~= self.data@.subrange(start_pos + 4, start_pos + 8));
        let mut header_size: usize = 8;
        if length == 1 {
            if n - start_pos < 16 {
                return Err(JpeglsError::InvalidData);
            }
            let hi = be_u32(self.data, start_pos + 8) as u64;
            let lo = be_u32(self.data, start_pos + 12) as u64;
            length = hi * 0x1_0000_0000 + lo;
            header_size = 16;
        } else if length == 0 {
            length = (n - start_pos) as u64;
        }
        if length > (n - start_pos) as u64 {
            return Err(JpeglsError::InvalidData);
        }
        let data_start = start_pos + header_size;
        let data_end = start_pos + length as usize;
        if data_end <= start_pos {
            return Err(JpeglsError::InvalidData);
        }
        self.position = data_end;
        Ok(Some(Jp2Box { length, box_type, data_range: data_start..data_end }))
    }

    /// The contents of the first `jp2c` box of a JP2 file; `None` when the data does not
    /// start with the JP2 signature or has no such box.
    pub fn find_codestream(&mut self) -> (r: Result<Option<&'a [u8]>, JpeglsError>)
        requires
            old(self).wf(),
        ensures
            final(self).wf(),
            final(self).data@ == old(self).data@,
            (old(self).data@.len() < 12 || old(self).data@.subrange(0, 12) != jp2_signature()) ==> r matches Ok(None),
            r matches Ok(Some(cs)) ==> old(self).data@.len() >= 12 && old(self).data@.subrange(0, 12) == jp2_signature()
                && exists|a: int, b: int| 0 <= a <= b <= old(self).data@.len() && cs@ == old(self).data@.subrange(a, b),
            r matches Err(e) ==> e == JpeglsError::InvalidData,
            old(self).data@.len() >= 12 && old(self).data@.subrange(0, 12) == jp2_signature() ==> match first_wanted_box(
                old(self).data@,
                old(self).position as int,
                false,
            ) {
                None => r is Err,
                Some(None) => r matches Ok(None),
                Some(Some((a, b))) => r matches Ok(Some(cs)) && cs@ == old(self).data@.subrange(a, b),
            },
    {
        if self.data.len() < 12 {
            return Ok(None);
        }
        if !has_signature(self.data) {
            return Ok(None);
        }
        loop
            invariant
                self.wf(),
                self.data@ == old(self).data@,
                self.data@.len() >= 12,
                self.data@.subrange(0, 12) == jp2_signature(),
                first_wanted_box(self.data@, self.position as int, false) == first_wanted_box(
                    old(self).data@,
                    old(self).position as int,
                    false,
                ),
            decreases self.data@.len() - self.position,
        {
            let ghost p = self.position as int;
            let ghost d = self.data@;
            let rb = self.read_box();
            proof {
                if rb is Err {
                    assert(first_wanted_box(d, p, false) is None);
                }
            }
            match rb? {
                Some(b) => {
                    proof {
                        assert(b.box_type@ == d.subrange(p + 4, p + 8));
                        assert(box_ok(d, p));
                        if !(b.box_type[0] == 0x6A && b.box_type[1] == 0x70 && b.box_type[2] == 0x32 && b.box_type[3] == 0x63
                            && b.data_range.start <= b.data_range.end) {
                            assert(!box_wanted(d, p, false)) by {
                                if d.subrange(p + 4, p + 8) == seq![0x6Au8, 0x70, 0x32, 0x63] {
                                    assert(b.box_type@[0] == d.subrange(p + 4, p + 8)[0]);
                                    assert(b.box_type@[1] == d.subrange(p + 4, p + 8)[1]);
                                    assert(b.box_type@[2] == d.subrange(p + 4, p + 8)[2]);
                                    assert(b.box_type@[3] == d.subrange(p + 4, p + 8)[3]);
                                }
                            }
                            assert(first_wanted_box(d, p, false) == first_wanted_box(d, p + box_length(d, p), false));
                        } else {
                            assert(d.subrange(p + 4, p + 8) =~= seq![0x6Au8, 0x70, 0x32, 0x63]);
                        }
                    }
                    if b.box_type[0] == 0x6A && b.box_type[1] == 0x70 && b.box_type[2] == 0x32 && b.box_type[3]
                        == 0x63 && b.data_range.start <= b.data_range.end {
                        let cs = vstd::slice::slice_subrange(self.data, b.data_range.start, b.data_range.end);
                        return Ok(Some(cs));
                    }
                },
                None => {
                    return Ok(None);
                },
            }
        }
    }
}


impl<'a> Jp2Reader<'a> {
    /// The ICC profile of a JP2 file: the contents after the first three bytes of the
    /// first `colr` box whose method (its first byte) is 2 and which has more than three
    /// bytes. `None` when the data does not start with the JP2 signature or has no such box.
    /// Reads from the start of the data.
    pub fn find_icc_profile(&mut self) -> (r: Result<Option<Vec<u8>>, JpeglsError>)
        requires
            old(self).wf(),
        ensures
            final(self).wf(),
            final(self).data@ == old(self).data@,
            (old(self).data@.len() < 12 || old(self).data@.subrange(0, 12) != jp2_signature()) ==> r matches Ok(None),
            r matches Ok(Some(icc)) ==> old(self).data@.len() >= 12 && old(self).data@.subrange(0, 12) == jp2_signature()
                && exists|a: int, b: int|
                3 <= a <= b <= old(self).data@.len() && old(self).data@[a - 3] == 2 && icc@ == old(self).data@.subrange(a, b),
            r matches Err(e) ==> e == JpeglsError::InvalidData,
            old(self).data@.len() >= 12 && old(self).data@.subrange(0, 12) == jp2_signature() ==> match first_wanted_box(
                old(self).data@,
                0,
                true,
            ) {
                None => r is Err,
                Some(None) => r matches Ok(None),
                Some(Some((a, b))) => r matches Ok(Some(icc)) && icc@ == old(self).data@.subrange(a + 3, b),
            },
    {
        self.position = 0;
        if self.data.len() < 12 {
            return Ok(None);
        }
        if !has_signature(self.data) {
            return Ok(None);
        }
        loop
            invariant
                self.wf(),
                self.data@ == old(self).data@,
                self.data@.len() >= 12,
                self.data@.subrange(0, 12) == jp2_signature(),
                first_wanted_box(self.data@, self.position as int, true) == first_wanted_box(old(self).data@, 0, true),
            decreases self.data@.len() - self.position,
        {
            let ghost p = self.position as int;
            let ghost d = self.data@;
            let rb = self.read_box();
            proof {
                if rb is Err {
                    assert(first_wanted_box(d, p, true) is None);
                }
            }
            match rb? {
                Some(b) => {
                    proof {
                        assert(b.box_type@ == d.subrange(p + 4, p + 8));
                        assert(box_ok(d, p));
                        if !(b.box_type[0] == 0x63 && b.box_type[1] == 0x6F && b.box_type[2] == 0x6C && b.box_type[3] == 0x72) {
                            assert(!box_wanted(d, p, true)) by {
                                if d.subrange(p + 4, p + 8) == seq![0x63u8, 0x6F, 0x6C, 0x72] {
                                    assert(b.box_type@[0] == d.subrange(p + 4, p + 8)[0]);
                                    assert(b.box_type@[1] == d.subrange(p + 4, p + 8)[1]);
                                    assert(b.box_type@[2] == d.subrange(p + 4, p + 8)[2]);
                                    assert(b.box_type@[3] == d.subrange(p + 4, p + 8)[3]);
                                }
                            }
                            assert(first_wanted_box(d, p, true) == first_wanted_box(d, p + box_length(d, p), true));
                        } else {
                            assert(d.subrange(p + 4, p + 8) =~= seq![0x63u8, 0x6F, 0x6C, 0x72]);
                        }
                    }
                    if b.box_type[0] == 0x63 && b.box_type[1] == 0x6F && b.box_type[2] == 0x6C && b.box_type[3]
                        == 0x72 {
                        let start = b.data_range.start;
                        let end = b.data_range.end;
                        if end >= start && end - start >= 3 {
                            let method = self.data[start];
                            if method == 2 && end - start > 3 {
                                let icc = copy_range(self.data, start + 3, end);
                                return Ok(Some(icc));
                            }
                        }
                    }
                },
                None => {
                    return Ok(None);
                },
            }
        }
    }
}
} // verus!
