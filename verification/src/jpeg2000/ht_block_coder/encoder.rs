//! The bit stream writers of the HTJ2K block encoder.
use crate::jpeg2000::bit_io::{byte_limit, write_step, write_steps, BitWriteState};
use vstd::arithmetic::power2::pow2;
use vstd::prelude::*;

verus! {

/// The MEL exponent `E[k]` of state `k` (Table 2 of ISO/IEC 15444-15).
pub open spec fn mel_e(k: int) -> nat {
    if k < 3 {
        0
    } else if k < 6 {
        1
    } else if k < 9 {
        2
    } else if k < 11 {
        3
    } else if k == 11 {
        4
    } else {
        5
    }
}

/// `E[k]` for a state `k` of `0..=12`.
pub fn mel_exponent(k: i32) -> (r: u32)
    requires
        0 <= k <= 12,
    ensures
        r == mel_e(k as int),
{
    if k < 3 {
        0
    } else if k < 6 {
        1
    } else if k < 9 {
        2
    } else if k < 11 {
        3
    } else if k == 11 {
        4
    } else {
        5
    }
}

/// Table 2 of ISO/IEC 15444-15 as a rule: `E[k]` is `floor(k / 3)` for the states up to
/// 10, then rises by one per state: 4 at state 11 and 5 at state 12.
pub proof fn lemma_mel_exponent_rule(k: int)
    requires
        0 <= k <= 12,
    ensures
        mel_e(k) == if k <= 10 { k / 3 } else { k - 7 },
{
}

/// The bytes written after padding the byte being filled with zero bits, when it holds
/// any bit.
pub open spec fn padded_bytes(s: BitWriteState) -> Seq<u8> {
    let (data, buf, cnt, ff) = s;
    if cnt > 0 {
        data.push(buf << ((byte_limit(ff) - cnt) as u8))
    } else {
        data
    }
}

/// MEL (Magnitude Exponent Logic) encoder: codes runs of insignificant quads with an
/// adaptive run-length code of 13 states.
pub struct MelEncoder {
    /// The bytes written.
    pub buffer: Vec<u8>,
    /// The byte being filled.
    pub current_byte: u8,
    /// Bits in `current_byte`.
    pub bits_in_byte: u8,
    /// The state index.
    pub k: i32,
    /// Whether the last byte written was `0xFF`.
    pub last_byte_was_ff: bool,
    /// Insignificant quads counted in the current run.
    pub run: u32,
    /// The run length that completes a run in the current state: `2^E[k]`.
    pub t: u32,
}

/// The state of a MEL encoder: its bit writer, state index and run.
pub type MelState = (BitWriteState, int, int);

/// The MEL state after coding a quad whose significance is `significant`: an
/// insignificant quad extends the run, and a run that reaches `2^E[k]` is written as a
/// 1 bit and moves to the next state; a significant quad ends the run with a 0 bit and
/// the `E[k]` bits of the run length, and moves to the state before.
pub open spec fn mel_step(m: MelState, significant: bool) -> MelState {
    let (w, k, run) = m;
    if !significant {
        if run + 1 >= pow2(mel_e(k)) {
            (write_step(w, 1), if k + 1 < 12 { k + 1 } else { 12 }, 0)
        } else {
            (w, k, run + 1)
        }
    } else {
        (write_steps(write_step(w, 0), run as u32, mel_e(k)), if k - 1 > 0 { k - 1 } else { 0 }, 0)
    }
}

impl MelEncoder {
    /// The bit writer state.
    pub open spec fn wstate(&self) -> BitWriteState {
        (self.buffer@, self.current_byte, self.bits_in_byte, self.last_byte_was_ff)
    }

    /// The coding state.
    pub open spec fn mstate(&self) -> MelState {
        (self.wstate(), self.k as int, self.run as int)
    }

    /// The byte being filled is never full, the state index is in `0..=12` and the
    /// run is shorter than `t = 2^E[k]`.
    pub open spec fn wf(&self) -> bool {
        &&& self.bits_in_byte < byte_limit(self.last_byte_was_ff)
        &&& 0 <= self.k <= 12
        &&& self.t == pow2(mel_e(self.k as int))
        &&& self.run < self.t
    }

    /// An encoder in state 0 with nothing written.
    pub fn new() -> (r: Self)
        ensures
            r.wf(),
            r.mstate() == ((Seq::<u8>::empty(), 0u8, 0u8, false), 0int, 0int),
    {
        proof {
            vstd::arithmetic::power2::lemma2_to64();
        }
        Self { buffer: Vec::new(), current_byte: 0, bits_in_byte: 0, k: 0, last_byte_was_ff: false, run: 0, t: 1 }
    }

    /// Writes the lowest bit of `bit`; a byte holds 7 bits after a byte `0xFF`.
    pub fn write_bit(&mut self, bit: u8)
        requires
            old(self).bits_in_byte < byte_limit(old(self).last_byte_was_ff),
        ensures
            final(self).bits_in_byte < byte_limit(final(self).last_byte_was_ff),
            final(self).wstate() == write_step(old(self).wstate(), bit),
            final(self).k == old(self).k,
            final(self).run == old(self).run,
            final(self).t == old(self).t,
    {
        self.current_byte = (self.current_byte << 1u8) | (bit & 1);
        self.bits_in_byte = self.bits_in_byte + 1;
        let limit: u8 = if self.last_byte_was_ff { 7 } else { 8 };
        if self.bits_in_byte == limit {
            let b = self.current_byte;
            self.buffer.push(b);
            self.last_byte_was_ff = b == 0xFF;
            self.current_byte = 0;
            self.bits_in_byte = 0;
        }
    }

    /// Codes one quad's significance.
    pub fn encode(&mut self, is_significant: bool)
        requires
            old(self).wf(),
        ensures
            final(self).wf(),
            final(self).mstate() == mel_step(old(self).mstate(), is_significant),
    {
        proof {
            vstd::arithmetic::power2::lemma2_to64();
        }
        if !is_significant {
            self.run = self.run + 1;
            if self.run >= self.t {
                self.write_bit(1);
                self.run = 0;
                self.k = if self.k + 1 < 12 { self.k + 1 } else { 12 };
                let e = mel_exponent(self.k);
                self.t = 1u32 << e;
                proof {
                    crate::bits::lemma_one_shl_u32(e);
                }
            }
        } else {
            self.write_bit(0);
            let mut e = mel_exponent(self.k);
            let ghost w0 = self.wstate();
            let ghost run0 = self.run;
            while e > 0
                invariant
                    self.bits_in_byte < byte_limit(self.last_byte_was_ff),
                    e <= 5,
                    self.run == run0,
                    self.k == old(self).k,
                    0 <= self.k <= 12,
                    write_steps(self.wstate(), run0, e as nat) == write_steps(w0, run0, mel_e(self.k as int)),
                decreases e,
            {
                e = e - 1;
                let bit = ((self.run >> e) & 1) as u8;
                self.write_bit(bit);
            }
            self.run = 0;
            self.k = if self.k - 1 > 0 { self.k - 1 } else { 0 };
            let e2 = mel_exponent(self.k);
            self.t = 1u32 << e2;
            proof {
                crate::bits::lemma_one_shl_u32(e2);
            }
        }
    }

    /// Ends the stream: a run in progress is written as a 1 bit, and a partly filled byte
    /// is written padded with zero bits.
    pub fn flush(&mut self)
        requires
            old(self).wf(),
        ensures
            ({
                let w = if old(self).run > 0 { write_step(old(self).wstate(), 1) } else { old(self).wstate() };
                final(self).buffer@ == padded_bytes(w)
            }),
    {
        if self.run > 0 {
            self.write_bit(1);
        }
        if self.bits_in_byte > 0 {
            let limit: u8 = if self.last_byte_was_ff { 7 } else { 8 };
            let padding = limit - self.bits_in_byte;
            self.current_byte = self.current_byte << padding;
            let b = self.current_byte;
            self.buffer.push(b);
        }
    }

    /// The bytes written.
    pub fn get_buffer(&self) -> (r: &[u8])
        ensures
            r@ == self.buffer@,
    {
        self.buffer.as_slice()
    }
}

impl Default for MelEncoder {
    fn default() -> (r: Self)
        ensures
            r.wf(),
            r.mstate() == ((Seq::<u8>::empty(), 0u8, 0u8, false), 0int, 0int),
    {
        Self::new()
    }
}

/// MagSgn (magnitude and sign) encoder: writes raw bits, most significant first.
pub struct MagSgnEncoder {
    /// The bytes written.
    pub buffer: Vec<u8>,
    /// The byte being filled.
    pub current_byte: u8,
    /// Bits in `current_byte`.
    pub bits_in_byte: u8,
    /// Whether the last byte written was `0xFF`.
    pub last_byte_was_ff: bool,
}

impl MagSgnEncoder {
    /// The bit writer state.
    pub open spec fn wstate(&self) -> BitWriteState {
        (self.buffer@, self.current_byte, self.bits_in_byte, self.last_byte_was_ff)
    }

    /// The byte being filled is never full.
    pub open spec fn wf(&self) -> bool {
        self.bits_in_byte < byte_limit(self.last_byte_was_ff)
    }

    /// An encoder with nothing written.
    pub fn new() -> (r: Self)
        ensures
            r.wf(),
            r.wstate() == (Seq::<u8>::empty(), 0u8, 0u8, false),
    {
        Self { buffer: Vec::new(), current_byte: 0, bits_in_byte: 0, last_byte_was_ff: false }
    }

    /// Writes the lowest bit of `bit`; a byte holds 7 bits after a byte `0xFF`.
    pub fn write_bit(&mut self, bit: u8)
        requires
            old(self).wf(),
        ensures
            final(self).wf(),
            final(self).wstate() == write_step(old(self).wstate(), bit),
    {
        self.current_byte = (self.current_byte << 1u8) | (bit & 1);
        self.bits_in_byte = self.bits_in_byte + 1;
        let limit: u8 = if self.last_byte_was_ff { 7 } else { 8 };
        if self.bits_in_byte == limit {
            let b = self.current_byte;
            self.buffer.push(b);
            self.last_byte_was_ff = b == 0xFF;
            self.current_byte = 0;
            self.bits_in_byte = 0;
        }
    }

    /// Writes the low `count` bits of `value`, most significant first.
    pub fn write_bits(&mut self, value: u32, count: u8)
        requires
            old(self).wf(),
            count <= 32,
        ensures
            final(self).wf(),
            final(self).wstate() == write_steps(old(self).wstate(), value, count as nat),
    {
        let mut n = count;
        while n > 0
            invariant
                self.wf(),
                n <= 32,
                write_steps(self.wstate(), value, n as nat) == write_steps(old(self).wstate(), value, count as nat),
            decreases n,
        {
            n = n - 1;
            let bit = ((value >> (n as u32)) & 1) as u8;
            self.write_bit(bit);
        }
    }

    /// Writes a partly filled byte out, padded with zero bits.
    pub fn flush(&mut self)
        requires
            old(self).wf(),
        ensures
            final(self).buffer@ == padded_bytes(old(self).wstate()),
    {
        if self.bits_in_byte > 0 {
            let limit: u8 = if self.last_byte_was_ff { 7 } else { 8 };
            let padding = limit - self.bits_in_byte;
            self.current_byte = self.current_byte << padding;
            let b = self.current_byte;
            self.buffer.push(b);
        }
    }

    /// The bytes written.
    pub fn get_buffer(&self) -> (r: &[u8])
        ensures
            r@ == self.buffer@,
    {
        self.buffer.as_slice()
    }
}

impl Default for MagSgnEncoder {
    fn default() -> (r: Self)
        ensures
            r.wf(),
            r.wstate() == (Seq::<u8>::empty(), 0u8, 0u8, false),
    {
        Self::new()
    }
}

/// The state of a VLC writer: bytes written (in the order made; the stream stores them
/// reversed), the byte being filled from its least significant bit, its bit count, and
/// whether the byte before limits this one to 7 bits.
pub type VlcState = (Seq<u8>, u8, u8, bool);

/// The VLC state after writing `bit` at the next free position of the byte being filled.
/// A byte is full at 8 bits, or at 7 after a byte above `0x8F`; there, unless its 7 bits
/// are `0x7F`, the eighth bit may still be used.
pub open spec fn vlc_step(s: VlcState, bit: u8) -> VlcState {
    let (data, cur, n, limited) = s;
    let c2: u8 = cur | ((bit & 1) << n);
    let n2: u8 = (n + 1) as u8;
    if n2 == byte_limit(limited) {
        if limited && c2 != 0x7F {
            (data, c2, n2, false)
        } else {
            (data.push(c2), 0, 0, c2 > 0x8F)
        }
    } else {
        (data, c2, n2, limited)
    }
}

/// The VLC state after writing the low `count` bits of `value`, least significant first.
pub open spec fn vlc_steps(s: VlcState, value: u32, count: nat) -> VlcState
    decreases count,
{
    if count == 0 {
        s
    } else {
        vlc_steps(vlc_step(s, (value & 1) as u8), value >> 1u32, (count - 1) as nat)
    }
}

/// VLC encoder: packs code words least significant bit first into bytes that the
/// stream holds from its end backwards.
pub struct VlcEncoder {
    /// The bytes written, in the order made.
    pub buffer: Vec<u8>,
    /// The byte being filled.
    pub current_byte: u8,
    /// Bits in `current_byte`.
    pub bits_in_byte: u8,
    /// Whether the byte before limits this one to 7 bits.
    pub last_byte_was_ff: bool,
}

impl VlcEncoder {
    /// The writer state.
    pub open spec fn vstate(&self) -> VlcState {
        (self.buffer@, self.current_byte, self.bits_in_byte, self.last_byte_was_ff)
    }

    /// The byte being filled is never full.
    pub open spec fn wf(&self) -> bool {
        self.bits_in_byte < byte_limit(self.last_byte_was_ff)
    }

    /// An encoder whose first byte (the last of the stream) starts with the four bits
    /// `1111` and is limited as after a byte `0xFF`.
    pub fn new() -> (r: Self)
        ensures
            r.wf(),
            r.vstate() == (Seq::<u8>::empty(), 0x0Fu8, 4u8, true),
    {
        Self { buffer: Vec::new(), current_byte: 0x0F, bits_in_byte: 4, last_byte_was_ff: true }
    }

    /// Writes the lowest bit of `bit` at the next free position.
    fn write_bit(&mut self, bit: u8)
        requires
            old(self).wf(),
        ensures
            final(self).wf(),
            final(self).vstate() == vlc_step(old(self).vstate(), bit),
    {
        let n = self.bits_in_byte;
        let b: u8 = bit & 1;
        let c = self.current_byte;
        self.current_byte = c | (b << n);
        self.bits_in_byte = n + 1;
        let limit: u8 = if self.last_byte_was_ff { 7 } else { 8 };
        if self.bits_in_byte == limit {
            if self.last_byte_was_ff && self.current_byte != 0x7F {
                self.last_byte_was_ff = false;
            } else {
                let byte = self.current_byte;
                self.buffer.push(byte);
                self.last_byte_was_ff = byte > 0x8F;
                self.current_byte = 0;
                self.bits_in_byte = 0;
            }
        }
    }

    /// Writes the low `count` bits of `value`, least significant first.
    pub fn write_bits(&mut self, value: u32, count: u8)
        requires
            old(self).wf(),
        ensures
            final(self).wf(),
            final(self).vstate() == vlc_steps(old(self).vstate(), value, count as nat),
    {
        let mut v = value;
        let mut n = count;
        while n > 0
            invariant
                self.wf(),
                vlc_steps(self.vstate(), v, n as nat) == vlc_steps(old(self).vstate(), value, count as nat),
            decreases n,
        {
            self.write_bit((v & 1) as u8);
            v = v >> 1u32;
            n = n - 1;
        }
    }

    /// The bytes written, in the order made.
    pub fn get_buffer(&self) -> (r: &[u8])
        ensures
            r@ == self.buffer@,
    {
        self.buffer.as_slice()
    }
}

impl Default for VlcEncoder {
    fn default() -> (r: Self)
        ensures
            r.wf(),
            r.vstate() == (Seq::<u8>::empty(), 0x0Fu8, 4u8, true),
    {
        Self::new()
    }
}

} // verus!
