//! Bit-level reading and writing of packet headers, with the bit stuffing of
//! JPEG 2000: after a byte `0xFF`, the next byte carries only seven bits.
use crate::jpeg_stream_reader::JpegStreamReader;
use vstd::prelude::*;

verus! {

/// The error of a bit read past the end of the data.
#[derive(Debug, Clone, Copy, PartialEq, Eq, Structural)]
pub struct BitIoError;

/// The state of a bit reader: read position, bit buffer, bits left in it, last byte read.
pub type BitReadState = (int, u8, u8, u8);

/// One bit read from `data` in state `s`: the next state and the bit, or `None` past the end.
pub open spec fn bit_step(data: Seq<u8>, s: BitReadState) -> Option<(BitReadState, u8)> {
    let (pos, buf, cnt, last) = s;
    if cnt == 0 {
        if 0 <= pos < data.len() {
            let b = data[pos];
            let c: u8 = if last == 0xFF { 7 } else { 8 };
            Some(((pos + 1, b, (c - 1) as u8, b), (b >> ((c - 1) as u8)) & 1))
        } else {
            None
        }
    } else {
        Some(((pos, buf, (cnt - 1) as u8, last), (buf >> ((cnt - 1) as u8)) & 1))
    }
}

/// `n` bits read from `data` in state `s`, gathered most significant first onto `acc`:
/// the state reached and the value, or `None` for the value where the data ran out.
pub open spec fn bits_read(data: Seq<u8>, s: BitReadState, n: nat, acc: u32) -> (BitReadState, Option<u32>)
    decreases n,
{
    if n == 0 {
        (s, Some(acc))
    } else {
        match bit_step(data, s) {
            Some((s2, b)) => bits_read(data, s2, (n - 1) as nat, (acc << 1u32) | (b as u32)),
            None => (s, None),
        }
    }
}

/// Reads bits, most significant first, from a codestream reader.
pub struct J2kBitReader<'a, 'b> {
    /// The codestream reader that supplies the bytes.
    pub reader: &'a mut JpegStreamReader<'b>,
    /// The byte being read.
    pub bit_buffer: u8,
    /// Bits of `bit_buffer` not read yet.
    pub bits_count: u8,
    /// The last byte read.
    pub last_byte: u8,
}

impl<'a, 'b> J2kBitReader<'a, 'b> {
    /// The state of this reader.
    pub open spec fn state(&self) -> BitReadState {
        (self.reader.pos(), self.bit_buffer, self.bits_count, self.last_byte)
    }

    /// The bytes read from.
    pub open spec fn data(&self) -> Seq<u8> {
        self.reader.data()
    }

    /// The buffer never holds more than a byte.
    pub open spec fn wf(&self) -> bool {
        self.bits_count <= 8
    }

    /// A bit reader over `reader`, with nothing buffered.
    pub fn new(reader: &'a mut JpegStreamReader<'b>) -> (r: Self)
        ensures
            r.wf(),
            r.state() == (old(reader).pos(), 0u8, 0u8, 0u8),
            *r.reader == *old(reader),
            *final(reader) == *final(r.reader),
    {
        Self { reader, bit_buffer: 0, bits_count: 0, last_byte: 0 }
    }

    /// Reads one bit.
    pub fn read_bit(&mut self) -> (r: Result<u8, BitIoError>)
        requires
            old(self).wf(),
        ensures
            final(self).wf(),
            final(self).reader.same_but_pos(old(self).reader),
            match bit_step(old(self).data(), old(self).state()) {
                Some((s2, b)) => r == Ok::<u8, BitIoError>(b) && final(self).state() == s2,
                None => r == Err::<u8, BitIoError>(BitIoError) && final(self).state() == old(self).state(),
            },
    {
        if self.bits_count == 0 {
            let b = match self.reader.read_u8() {
                Ok(b) => b,
                Err(_) => return Err(BitIoError),
            };
            if self.last_byte == 0xFF {
                self.bit_buffer = b;
                self.bits_count = 7;
            } else {
                self.bit_buffer = b;
                self.bits_count = 8;
            }
            self.last_byte = b;
        }
        let bit = (self.bit_buffer >> (self.bits_count - 1)) & 1;
        self.bits_count = self.bits_count - 1;
        Ok(bit)
    }

    /// Drops what is buffered; the next bit comes from the next byte.
    pub fn align_to_byte(&mut self)
        ensures
            final(self).wf(),
            *final(self).reader == *old(self).reader,
            final(self).state() == (old(self).reader.pos(), 0u8, 0u8, 0u8),
    {
        self.bits_count = 0;
        self.bit_buffer = 0;
        self.last_byte = 0;
    }

    /// Reads `count` bits, most significant first.
    pub fn read_bits(&mut self, count: u8) -> (r: Result<u32, BitIoError>)
        requires
            old(self).wf(),
        ensures
            final(self).wf(),
            final(self).reader.same_but_pos(old(self).reader),
            ({
                let (s, v) = bits_read(old(self).data(), old(self).state(), count as nat, 0);
                &&& final(self).state() == s
                &&& match v {
                    Some(x) => r == Ok::<u32, BitIoError>(x),
                    None => r == Err::<u32, BitIoError>(BitIoError),
                }
            }),
    {
        let mut bits = 0u32;
        let mut n = count;
        while n > 0
            invariant
                self.wf(),
                self.reader.same_but_pos(old(self).reader),
                bits_read(self.data(), self.state(), n as nat, bits) == bits_read(
                    old(self).data(),
                    old(self).state(),
                    count as nat,
                    0,
                ),
            decreases n,
        {
            let bit = match self.read_bit() {
                Ok(b) => b,
                Err(e) => {
                    return Err(e);
                },
            };
            bits = (bits << 1u32) | (bit as u32);
            n = n - 1;
        }
        Ok(bits)
    }
}

/// The state of a bit writer: bytes written, bit buffer, bits in it, whether the last byte was `0xFF`.
pub type BitWriteState = (Seq<u8>, u8, u8, bool);

/// Bits a byte holds: seven after a byte `0xFF`, else eight.
pub open spec fn byte_limit(last_ff: bool) -> u8 {
    if last_ff { 7 } else { 8 }
}

/// The state after writing `bit`.
pub open spec fn write_step(s: BitWriteState, bit: u8) -> BitWriteState {
    let (data, buf, cnt, ff) = s;
    let nb: u8 = (buf << 1u8) | (bit & 1);
    let nc: u8 = (cnt + 1) as u8;
    if nc == byte_limit(ff) {
        (data.push(nb), 0, 0, nb == 0xFF)
    } else {
        (data, nb, nc, ff)
    }
}

/// The state after writing the low `count` bits of `value`, most significant first.
pub open spec fn write_steps(s: BitWriteState, value: u32, count: nat) -> BitWriteState
    decreases count,
{
    if count == 0 {
        s
    } else {
        write_steps(write_step(s, ((value >> ((count - 1) as u32)) & 1) as u8), value, (count - 1) as nat)
    }
}

/// The state after padding the last byte with zero bits and writing it out.
pub open spec fn align_step(s: BitWriteState) -> BitWriteState {
    let (data, buf, cnt, ff) = s;
    if cnt > 0 {
        let nb: u8 = buf << ((byte_limit(ff) - cnt) as u8);
        (data.push(nb), 0, 0, nb == 0xFF)
    } else {
        s
    }
}

/// Writes bits, most significant first, with the bit stuffing of packet headers.
pub struct J2kBitWriter {
    /// The bytes written.
    pub data: Vec<u8>,
    /// The byte being filled.
    pub bit_buffer: u8,
    /// Bits in `bit_buffer`.
    pub bits_count: u8,
    /// Whether the last byte written was `0xFF`.
    pub last_byte_ff: bool,
}

impl J2kBitWriter {
    /// The state of this writer.
    pub open spec fn state(&self) -> BitWriteState {
        (self.data@, self.bit_buffer, self.bits_count, self.last_byte_ff)
    }

    /// The byte being filled is never full.
    pub open spec fn wf(&self) -> bool {
        self.bits_count < byte_limit(self.last_byte_ff)
    }

    /// An empty writer.
    pub fn new() -> (r: Self)
        ensures
            r.wf(),
            r.state() == (Seq::<u8>::empty(), 0u8, 0u8, false),
    {
        J2kBitWriter { data: Vec::new(), bit_buffer: 0, bits_count: 0, last_byte_ff: false }
    }

    /// Writes the lowest bit of `bit`.
    pub fn write_bit(&mut self, bit: u8)
        requires
            old(self).wf(),
        ensures
            final(self).wf(),
            final(self).state() == write_step(old(self).state(), bit),
    {
        self.bit_buffer = (self.bit_buffer << 1u8) | (bit & 1);
        self.bits_count = self.bits_count + 1;
        let limit: u8 = if self.last_byte_ff { 7 } else { 8 };
        if self.bits_count == limit {
            self.flush_byte();
        }
    }

    /// Writes the low `count` bits of `value`, most significant first.
    pub fn write_bits(&mut self, value: u32, count: u8)
        requires
            old(self).wf(),
            count <= 32,
        ensures
            final(self).wf(),
            final(self).state() == write_steps(old(self).state(), value, count as nat),
    {
        let mut n = count;
        while n > 0
            invariant
                self.wf(),
                n <= 32,
                write_steps(self.state(), value, n as nat) == write_steps(old(self).state(), value, count as nat),
            decreases n,
        {
            let bit = ((value >> (n - 1) as u32) & 1) as u8;
            self.write_bit(bit);
            n = n - 1;
        }
    }

    fn flush_byte(&mut self)
        ensures
            final(self).state() == (old(self).data@.push(old(self).bit_buffer), 0u8, 0u8, old(self).bit_buffer == 0xFF),
    {
        let b = self.bit_buffer;
        self.data.push(b);
        self.last_byte_ff = b == 0xFF;
        self.bit_buffer = 0;
        self.bits_count = 0;
    }

    /// Pads the byte being filled with zero bits and writes it out.
    pub fn align_to_byte(&mut self)
        requires
            old(self).wf(),
        ensures
            final(self).wf(),
            final(self).state() == align_step(old(self).state()),
    {
        if self.bits_count > 0 {
            let limit: u8 = if self.last_byte_ff { 7 } else { 8 };
            self.bit_buffer = self.bit_buffer << (limit - self.bits_count);
            self.flush_byte();
        }
    }

    /// The bytes written, the last one padded.
    pub fn finish(self) -> (r: Vec<u8>)
        requires
            self.wf(),
        ensures
            r@ == align_step(self.state()).0,
    {
        let mut w = self;
        w.align_to_byte();
        w.data
    }

    /// The bytes written so far.
    pub fn get_output(&self) -> (r: &[u8])
        ensures
            r@ == self.data@,
    {
        self.data.as_slice()
    }
}

impl Default for J2kBitWriter {
    fn default() -> (r: Self)
        ensures
            r.wf(),
            r.state() == (Seq::<u8>::empty(), 0u8, 0u8, false),
    {
        J2kBitWriter::new()
    }
}

/// The state after writing each bit of `bits` in turn.
pub open spec fn write_all(s: BitWriteState, bits: Seq<u8>) -> BitWriteState
    decreases bits.len(),
{
    if bits.len() == 0 {
        s
    } else {
        write_all(write_step(s, bits[0]), bits.drop_first())
    }
}

/// `n` bits read one at a time from `data` in state `s`, or `None` where the data runs out.
pub open spec fn read_all(data: Seq<u8>, s: BitReadState, n: nat) -> Option<Seq<u8>>
    decreases n,
{
    if n == 0 {
        Some(Seq::empty())
    } else {
        match bit_step(data, s) {
            Some((s2, b)) => match read_all(data, s2, (n - 1) as nat) {
                Some(t) => Some(seq![b] + t),
                None => None,
            },
            None => None,
        }
    }
}

/// A writer state whose byte being filled holds only its `cnt` bits.
pub open spec fn write_state_ok(w: BitWriteState) -> bool {
    &&& w.2 < byte_limit(w.3)
    &&& w.1 >> w.2 == 0
}

/// Every value of `bits` is a bit.
pub open spec fn all_bits(bits: Seq<u8>) -> bool {
    forall|i: int| 0 <= i < bits.len() ==> #[trigger] bits[i] <= 1
}

/// Writing a bit keeps the byte being filled to its bits.
proof fn lemma_write_step_ok(w: BitWriteState, b: u8)
    requires
        write_state_ok(w),
        b <= 1,
    ensures
        write_state_ok(write_step(w, b)),
{
    crate::bits::lemma_u8_push_bit(w.1, b, w.2);
    crate::bits::lemma_u8_shr_step(0, 0);
}

/// What writing `rest` and padding leaves of the bytes already written and of the
/// byte being filled: the bytes written stay, and the byte being filled ends with its
/// bits at the top of the bits it holds.
proof fn lemma_written_stays(w: BitWriteState, rest: Seq<u8>)
    requires
        write_state_ok(w),
        all_bits(rest),
    ensures
        ({
            let d = align_step(write_all(w, rest)).0;
            let l = w.0.len();
            &&& d.len() >= l
            &&& d.subrange(0, l as int) == w.0
            &&& w.2 > 0 ==> d.len() > l && d[l as int] >> ((byte_limit(w.3) - w.2) as u8) == w.1
        }),
    decreases rest.len(),
{
    let (data, buf, cnt, ff) = w;
    let lim = byte_limit(ff);
    if rest.len() == 0 {
        if cnt > 0 {
            crate::bits::lemma_u8_shift_back(buf, (lim - cnt) as u8, cnt);
        }
        assert(align_step(w).0.subrange(0, data.len() as int) =~= data);
    } else {
        let b = rest[0];
        assert(b <= 1);
        crate::bits::lemma_u8_push_bit(buf, b, cnt);
        let w2 = write_step(w, b);
        let nb: u8 = (buf << 1u8) | (b & 1);
        assert(all_bits(rest.drop_first()));
        if cnt + 1 == lim {
            lemma_write_step_ok(w, b);
            lemma_written_stays(w2, rest.drop_first());
            let d = align_step(write_all(w2, rest.drop_first())).0;
            assert(d.subrange(0, data.len() as int) =~= d.subrange(0, data.len() as int + 1).subrange(0, data.len() as int));
            assert(d[data.len() as int] == d.subrange(0, data.len() as int + 1)[data.len() as int]);
            crate::bits::lemma_u8_shr_step(nb, 0);
        } else {
            lemma_written_stays(w2, rest.drop_first());
            if cnt > 0 {
                let d = align_step(write_all(w2, rest.drop_first())).0;
                let x = d[data.len() as int];
                crate::bits::lemma_u8_shr_step(x, (lim - cnt - 1) as u8);
            }
        }
    }
}

/// Reading back what was written: from a reader positioned where a writer stands (same
/// byte, same bits consumed, same stuffing state), reading the bits written next gives them.
proof fn lemma_read_back(w: BitWriteState, r: BitReadState, rest: Seq<u8>)
    requires
        write_state_ok(w),
        all_bits(rest),
        ({
            let d = align_step(write_all(w, rest)).0;
            let l = w.0.len() as int;
            &&& w.2 == 0 ==> r.0 == l && r.2 == 0 && (r.3 == 0xFF) == w.3
            &&& w.2 > 0 ==> r.0 == l + 1 && l < d.len() && r.1 == d[l] && r.2 == byte_limit(w.3) - w.2 && r.3 == d[l]
        }),
    ensures
        read_all(align_step(write_all(w, rest)).0, r, rest.len()) == Some(rest),
    decreases rest.len(),
{
    let d = align_step(write_all(w, rest)).0;
    let (data, buf, cnt, ff) = w;
    let lim = byte_limit(ff);
    let l = data.len() as int;
    if rest.len() == 0 {
        assert(rest =~= Seq::<u8>::empty());
    } else {
        let b = rest[0];
        assert(b <= 1);
        let tail = rest.drop_first();
        assert(all_bits(tail));
        crate::bits::lemma_u8_push_bit(buf, b, cnt);
        let w2 = write_step(w, b);
        assert(write_all(w, rest) == write_all(w2, tail));
        let nb: u8 = (buf << 1u8) | (b & 1);
        lemma_write_step_ok(w, b);
        lemma_written_stays(w2, tail);
        let step = bit_step(d, r);
        if cnt == 0 {
            assert(d.subrange(0, l) == data);
            assert(l < d.len());
            let x = d[l];
            let c: u8 = lim;
            let r2 = (l + 1, x, (c - 1) as u8, x);
            assert(step == Some((r2, (x >> ((c - 1) as u8)) & 1)));
            assert(x >> ((lim - 1) as u8) == nb);
            crate::bits::lemma_u8_shr_step(nb, 0);
            lemma_read_back(w2, r2, tail);
        } else {
            let x = d[l];
            let r2 = (r.0, r.1, (r.2 - 1) as u8, r.3);
            assert(step == Some((r2, (x >> ((r.2 - 1) as u8)) & 1)));
            if cnt + 1 == lim {
                assert(w2 == (data.push(nb), 0u8, 0u8, nb == 0xFF));
                assert(d.subrange(0, l + 1) == data.push(nb));
                assert(x == d.subrange(0, l + 1)[l]);
                crate::bits::lemma_u8_shr_step(x, 0);
                lemma_read_back(w2, r2, tail);
            } else {
                assert(x >> ((lim - cnt - 1) as u8) == nb);
                lemma_read_back(w2, r2, tail);
            }
        }
        assert(seq![b] + tail =~= rest);
    }
}

/// What a bit writer writes, padded to a byte, reads back bit for bit: a fresh reader on
/// the bytes of a fresh writer gives each bit written, the byte stuffing after `0xFF`
/// included.
pub proof fn lemma_bits_roundtrip(bits: Seq<u8>)
    requires
        all_bits(bits),
    ensures
        read_all(align_step(write_all((Seq::<u8>::empty(), 0u8, 0u8, false), bits)).0, (0, 0u8, 0u8, 0u8), bits.len())
            == Some(bits),
{
    assert(0u8 >> 0u8 == 0) by {
        crate::bits::lemma_u8_shr_step(0, 0);
    }
    lemma_read_back((Seq::<u8>::empty(), 0u8, 0u8, false), (0, 0u8, 0u8, 0u8), bits);
}

} // verus!
