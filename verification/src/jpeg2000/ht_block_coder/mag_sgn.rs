//! The MagSgn bit stream reader of the HTJ2K block decoder.
use crate::jpeg2000::bit_io::{all_bits, bit_step, lemma_bits_roundtrip, read_all, write_all};
use crate::jpeg2000::ht_block_coder::encoder::padded_bytes;
use vstd::prelude::*;

verus! {

/// The state of a MagSgn reader: read position, byte being read, its bits left, and
/// whether the last byte read was `0xFF`.
pub type MagSgnState = (int, u8, u8, bool);

/// One bit read from `data` in state `s`, most significant first, a byte after a byte
/// `0xFF` giving only its low 7 bits: the next state and the bit, or `None` past the end.
pub open spec fn magsgn_step(data: Seq<u8>, s: MagSgnState) -> Option<(MagSgnState, u8)> {
    let (pos, buf, left, ff) = s;
    if left == 0 {
        if 0 <= pos < data.len() {
            let b = data[pos];
            let c: u8 = if ff { 7 } else { 8 };
            Some(((pos + 1, b, (c - 1) as u8, b == 0xFF), (b >> ((c - 1) as u8)) & 1))
        } else {
            None
        }
    } else {
        Some(((pos, buf, (left - 1) as u8, ff), (buf >> ((left - 1) as u8)) & 1))
    }
}

/// `n` bits read from `data` in state `s`, gathered most significant first onto `acc`:
/// the state reached and the value, or `None` for the value where the data ran out.
pub open spec fn magsgn_read(data: Seq<u8>, s: MagSgnState, n: nat, acc: u32) -> (MagSgnState, Option<u32>)
    decreases n,
{
    if n == 0 {
        (s, Some(acc))
    } else {
        match magsgn_step(data, s) {
            Some((s2, b)) => magsgn_read(data, s2, (n - 1) as nat, (acc << 1u32) | (b as u32)),
            None => (s, None),
        }
    }
}

/// Reads the MagSgn bit stream forward from the start of its data.
pub struct MagSgnDecoder<'a> {
    /// The data.
    pub data: &'a [u8],
    /// The next byte to read.
    pub pos: usize,
    /// The byte being read.
    pub bits_buffer: u8,
    /// Bits of `bits_buffer` not read yet.
    pub bits_left: u8,
    /// Whether the last byte read was `0xFF`.
    pub last_byte_was_ff: bool,
}

impl<'a> MagSgnDecoder<'a> {
    /// The reader state.
    pub open spec fn state(&self) -> MagSgnState {
        (self.pos as int, self.bits_buffer, self.bits_left, self.last_byte_was_ff)
    }

    /// At most a byte is buffered and the position stays within the data.
    pub open spec fn wf(&self) -> bool {
        &&& self.bits_left <= 8
        &&& self.pos <= self.data@.len()
    }

    /// A reader at the start of `data`.
    pub fn new(data: &'a [u8]) -> (r: Self)
        ensures
            r.wf(),
            r.data@ == data@,
            r.state() == (0int, 0u8, 0u8, false),
    {
        Self { data, pos: 0, bits_buffer: 0, bits_left: 0, last_byte_was_ff: false }
    }

    /// Reads one bit; `None` at the end of the data.
    pub fn read_bit(&mut self) -> (r: Option<u8>)
        requires
            old(self).wf(),
        ensures
            final(self).wf(),
            final(self).data@ == old(self).data@,
            match magsgn_step(old(self).data@, old(self).state()) {
                Some((s2, b)) => r == Some(b) && final(self).state() == s2,
                None => r is None && final(self).state() == old(self).state(),
            },
    {
        if self.bits_left == 0 {
            if self.pos >= self.data.len() {
                return None;
            }
            self.bits_buffer = self.data[self.pos];
            self.pos = self.pos + 1;
            if self.last_byte_was_ff {
                self.bits_left = 7;
            } else {
                self.bits_left = 8;
            }
            self.last_byte_was_ff = self.bits_buffer == 0xFF;
        }
        let bit = (self.bits_buffer >> (self.bits_left - 1)) & 1;
        self.bits_left = self.bits_left - 1;
        Some(bit)
    }

    /// Reads `count` bits, most significant first; `None` where the data runs out.
    pub fn read_bits(&mut self, count: u8) -> (r: Option<u32>)
        requires
            old(self).wf(),
        ensures
            final(self).wf(),
            final(self).data@ == old(self).data@,
            ({
                let (s, v) = magsgn_read(old(self).data@, old(self).state(), count as nat, 0);
                final(self).state() == s && r == v
            }),
    {
        let mut res: u32 = 0;
        let mut n = count;
        while n > 0
            invariant
                self.wf(),
                self.data@ == old(self).data@,
                magsgn_read(self.data@, self.state(), n as nat, res) == magsgn_read(
                    old(self).data@,
                    old(self).state(),
                    count as nat,
                    0,
                ),
            decreases n,
        {
            let bit = match self.read_bit() {
                Some(b) => b,
                None => {
                    return None;
                },
            };
            res = (res << 1u32) | (bit as u32);
            n = n - 1;
        }
        Some(res)
    }
}

/// `n` bits read one at a time from `data` in state `s`, or `None` where the data runs out.
pub open spec fn magsgn_read_all(data: Seq<u8>, s: MagSgnState, n: nat) -> Option<Seq<u8>>
    decreases n,
{
    if n == 0 {
        Some(Seq::empty())
    } else {
        match magsgn_step(data, s) {
            Some((s2, b)) => match magsgn_read_all(data, s2, (n - 1) as nat) {
                Some(t) => Some(seq![b] + t),
                None => None,
            },
            None => None,
        }
    }
}

/// The MagSgn reader reads as the packet header reader does, its flag standing for
/// whether the last byte read was `0xFF`.
proof fn lemma_magsgn_reads_as_bit_reader(d: Seq<u8>, s: MagSgnState, last: u8, n: nat)
    requires
        s.3 == (last == 0xFF),
    ensures
        magsgn_read_all(d, s, n) == read_all(d, (s.0, s.1, s.2, last), n),
    decreases n,
{
    if n > 0 {
        match magsgn_step(d, s) {
            Some((s2, b)) => {
                let t = (s.0, s.1, s.2, last);
                let (t2, b2) = bit_step(d, t)->Some_0;
                lemma_magsgn_reads_as_bit_reader(d, s2, t2.3, (n - 1) as nat);
            },
            None => {},
        }
    }
}

/// What the MagSgn encoder writes, padded by its flush, the MagSgn decoder reads back
/// bit for bit, the byte stuffing after `0xFF` included.
pub proof fn lemma_magsgn_roundtrip(bits: Seq<u8>)
    requires
        all_bits(bits),
    ensures
        magsgn_read_all(
            padded_bytes(write_all((Seq::<u8>::empty(), 0u8, 0u8, false), bits)),
            (0, 0u8, 0u8, false),
            bits.len(),
        ) == Some(bits),
{
    let w = write_all((Seq::<u8>::empty(), 0u8, 0u8, false), bits);
    assert(padded_bytes(w) == crate::jpeg2000::bit_io::align_step(w).0);
    lemma_bits_roundtrip(bits);
    lemma_magsgn_reads_as_bit_reader(padded_bytes(w), (0, 0u8, 0u8, false), 0u8, bits.len());
}

} // verus!
