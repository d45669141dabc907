//! The MEL bit stream reader of the HTJ2K block decoder: it reads the MEL/VLC segment
//! forward into a 64-bit window and decodes MEL runs from it.
use crate::jpeg2000::ht_block_coder::encoder::{mel_e, mel_exponent};
use vstd::prelude::*;

verus! {

/// The little-endian word of the four bytes of `d` at `p`.
pub open spec fn le_word(d: Seq<u8>, p: int) -> u32 {
    (d[p] as u32) | ((d[p + 1] as u32) << 8u32) | ((d[p + 2] as u32) << 16u32) | ((d[p + 3] as u32) << 24u32)
}

/// Byte `v` placed at bit `i` of `val`, replacing the byte there.
pub open spec fn put_byte(val: u32, v: u8, i: u32) -> u32 {
    (val & !(0xFFu32 << i)) | ((v as u32) << i)
}

/// The bytes taken from `d` at `pos` when `length` bytes of the segment remain, each
/// but the last of the segment placed at the next byte `i` of `val` (a word of ones
/// to start with), the last with its low nibble set: the word, the position and the
/// length left.
pub open spec fn mel_tail(d: Seq<u8>, pos: int, length: int, val: u32, i: u32) -> (u32, int, int)
    decreases length, d.len() - pos,
{
    if length > 1 && 0 <= pos < d.len() && i < 32 {
        mel_tail(d, pos + 1, length - 1, put_byte(val, d[pos], i), (i + 8) as u32)
    } else if length == 1 && 0 <= pos < d.len() && i < 32 {
        (put_byte(val, d[pos] | 0x0F, i), pos + 1, 0)
    } else {
        (val, pos, length)
    }
}

/// The next word of the segment: four bytes little-endian while more than four
/// remain, else what remains over a word of ones; with the position and length left.
pub open spec fn mel_word(d: Seq<u8>, pos: int, length: int) -> (u32, int, int) {
    if length > 4 {
        if pos + 4 <= d.len() {
            (le_word(d, pos), pos + 4, length - 4)
        } else {
            (0xFFFF_FFFFu32, pos, length)
        }
    } else if length > 0 {
        mel_tail(d, pos, length, 0xFFFF_FFFFu32, 0)
    } else {
        (0xFFFF_FFFFu32, pos, length)
    }
}

/// Byte `j` of `val`.
pub open spec fn byte_of(val: u32, j: u32) -> u32 {
    (val >> (j * 8) as u32) & 0xFF
}

/// `t` with byte `b` shifted in below it: by 7 bits when `b` is `0xFF`, else by 8.
pub open spec fn shift_in(t: u32, b: u32) -> u32 {
    (t << (if b == 0xFF { 7u32 } else { 8u32 })) | b
}

/// 1 for a byte `0xFF`, else 0.
pub open spec fn ff_bit(b: u32) -> u32 {
    if b == 0xFF { 1 } else { 0 }
}

/// The bytes of a word, lowest first, gathered by `shift_in`; the count of bits that
/// gives, 32 less one after a byte `0xFF` and less one for each of the first three bytes
/// that is `0xFF`; and whether the last byte is `0xFF`.
pub open spec fn mel_unstuff(val: u32, unstuff: bool) -> (u32, u32, bool) {
    let b0 = byte_of(val, 0);
    let b1 = byte_of(val, 1);
    let b2 = byte_of(val, 2);
    let b3 = byte_of(val, 3);
    (
        shift_in(shift_in(shift_in(shift_in(0, b0), b1), b2), b3),
        ((if unstuff { 31int } else { 32int }) - ff_bit(b0) - ff_bit(b1) - ff_bit(b2)) as u32,
        b3 == 0xFF,
    )
}

/// The window after taking the first `n` bytes of `d` (`n` at most its length): each
/// shifted in below the ones before, by 7 bits after a byte `0xFF`, else by 8, the last
/// byte of `d` with its low nibble set. Gives the window, its bits and whether the last
/// byte taken is `0xFF`.
pub open spec fn mel_fill(d: Seq<u8>, n: nat) -> (u64, u32, bool)
    decreases n,
{
    if n == 0 {
        (0u64, 0u32, false)
    } else {
        let (t, b, u) = mel_fill(d, (n - 1) as nat);
        let x: u8 = if n == d.len() { d[n - 1] | 0x0F } else { d[n - 1] };
        let c: u32 = if u { 7 } else { 8 };
        ((t << c as u64) | (x as u64), (b + c) as u32, x == 0xFF)
    }
}

/// MEL decoder state: data, position, bit window, bits in it, segment bytes left,
/// unstuffing flag, state index, runs buffered and the run buffer.
pub struct MelDecoder<'a> {
    /// The MEL/VLC segment.
    pub data: &'a [u8],
    /// The next byte to read.
    pub pos: usize,
    /// The bit window, its valid bits at the top.
    pub tmp: u64,
    /// Valid bits in `tmp`.
    pub bits: u32,
    /// Bytes of the segment not read yet.
    pub length: i32,
    /// Whether the last byte read was `0xFF`.
    pub unstuff: bool,
    /// The MEL state index.
    pub k: i32,
    /// Runs decoded and not taken yet.
    pub num_runs: i32,
    /// The decoded runs, 7 bits each, the next one lowest.
    pub runs: u64,
}

/// One MEL symbol decoded from the top of window `tmp` in state `k`: a 1 bit is a run
/// of `2^E[k]` insignificant quads not ending in a significant one, coded as
/// `(2^E[k] - 1) * 2`, and moves to the next state; a 0 bit and the `E[k]` bits after
/// it give a run `v` that ends in a significant quad, coded as `2v + 1`, and move to the
/// state before. Gives the coded run, and the window, bits and state after it.
pub open spec fn mel_symbol(tmp: u64, bits: u32, k: i32) -> (u64, u64, u32, i32) {
    let e = mel_e(k as int) as u64;
    if tmp & 0x8000_0000_0000_0000u64 != 0 {
        ((((1u64 << e) - 1) * 2) as u64, tmp << 1u64, (bits - 1) as u32, if k + 1 < 12 { (k + 1) as i32 } else { 12i32 })
    } else {
        let v = (tmp >> (63 - e) as u64) & (((1u64 << e) - 1) as u64);
        ((v * 2 + 1) as u64, tmp << (e + 1) as u64, (bits - e - 1) as u32, if k - 1 > 0 { (k - 1) as i32 } else { 0i32 })
    }
}

/// The MEL decoder registers: window, bits, state index, runs buffered, run buffer.
pub type MelRuns = (u64, u32, i32, i32, u64);

/// MEL symbols decoded while the window holds 6 bits or more and fewer than 8 runs are
/// buffered, each coded run stored in the next 7-bit slot of the run buffer.
pub open spec fn mel_runs(m: MelRuns) -> MelRuns
    decreases 8 - m.3,
{
    let (tmp, bits, k, n, runs) = m;
    if bits >= 6 && 0 <= n < 8 && 0 <= k <= 12 {
        let (run, t2, b2, k2) = mel_symbol(tmp, bits, k);
        let sh = (n * 7) as u64;
        mel_runs((t2, b2, k2, (n + 1) as i32, (runs & !(0x3Fu64 << sh)) | (run << sh)))
    } else {
        m
    }
}

impl<'a> MelDecoder<'a> {
    /// The position, length and counters stay within their bounds.
    pub open spec fn wf(&self) -> bool {
        &&& self.pos + self.length == self.data@.len()
        &&& 0 <= self.length
        &&& self.bits <= 64
        &&& 0 <= self.k <= 12
        &&& self.num_runs <= 8
        &&& self.data@.len() <= i32::MAX
    }

    /// A decoder at the start of `data` (not empty), its window filled with the first
    /// bytes, up to four, the last byte of the segment with its low nibble set, a byte
    /// after a byte `0xFF` giving 7 bits; the window's bits moved to its top.
    pub fn new(data: &'a [u8], _first_byte_bits: u8) -> (r: Self)
        requires
            1 <= data@.len() <= i32::MAX,
        ensures
            r.wf(),
            r.data@ == data@,
            r.pos == if data@.len() < 4 { data@.len() } else { 4 },
            r.length == data@.len() - r.pos,
            r.k == 0,
            r.num_runs == 0,
            r.runs == 0,
            7 * r.pos <= r.bits <= 8 * r.pos,
            ({
                let (t, b, u) = mel_fill(data@, r.pos as nat);
                &&& r.bits == b
                &&& r.unstuff == u
                &&& r.tmp == t << (64 - b) as u64
            }),
    {
        let mut decoder = Self {
            data,
            pos: 0,
            tmp: 0,
            bits: 0,
            length: data.len() as i32,
            unstuff: false,
            k: 0,
            num_runs: 0,
            runs: 0,
        };
        let num: usize = 4;
        let num_initial: usize = if num < decoder.length as usize { num } else { decoder.length as usize };
        let mut i: usize = 0;
        while i < num_initial
            invariant
                decoder.data@ == data@,
                1 <= data@.len() <= i32::MAX,
                num_initial == if data@.len() < 4 { data@.len() } else { 4 },
                i <= num_initial,
                decoder.pos == i,
                decoder.length == data@.len() - i,
                7 * i <= decoder.bits <= 8 * i,
                (decoder.tmp, decoder.bits, decoder.unstuff) == mel_fill(data@, i as nat),
                decoder.k == 0,
                decoder.num_runs == 0,
                decoder.runs == 0,
            decreases num_initial - i,
        {
            let d0 = decoder.data[decoder.pos];
            let d = if decoder.length == 1 { d0 | 0x0F } else { d0 };
            decoder.pos = decoder.pos + 1;
            decoder.length = decoder.length - 1;
            let d_bits: u32 = if decoder.unstuff { 7 } else { 8 };
            decoder.tmp = (decoder.tmp << d_bits as u64) | (d as u64);
            decoder.bits = decoder.bits + d_bits;
            decoder.unstuff = d == 0xFF;
            i = i + 1;
        }
        decoder.tmp = decoder.tmp << (64 - decoder.bits) as u64;
        decoder
    }

    /// Refills the window when it holds 32 bits or fewer: the next word of the segment
    /// is unstuffed and placed right below the valid bits.
    fn read(&mut self)
        requires
            old(self).wf(),
        ensures
            final(self).wf(),
            final(self).data@ == old(self).data@,
            final(self).k == old(self).k,
            final(self).num_runs == old(self).num_runs,
            final(self).runs == old(self).runs,
            old(self).bits > 32 ==> *final(self) == *old(self),
            old(self).bits <= 32 ==> ({
                let (val, p, l) = mel_word(old(self).data@, old(self).pos as int, old(self).length as int);
                let (t, bl, u) = mel_unstuff(val, old(self).unstuff);
                &&& final(self).pos == p
                &&& final(self).length == l
                &&& final(self).unstuff == u
                &&& final(self).bits == old(self).bits + bl
                &&& final(self).tmp == old(self).tmp | ((t as u64) << (64 - bl - old(self).bits) as u64)
            }),
    {
        if self.bits > 32 {
            return;
        }
        let mut val: u32 = 0xFFFF_FFFF;
        if self.length > 4 {
            if self.pos + 4 <= self.data.len() {
                let p = self.pos;
                val = (self.data[p] as u32) | ((self.data[p + 1] as u32) << 8u32) | ((self.data[p + 2] as u32)
                    << 16u32) | ((self.data[p + 3] as u32) << 24u32);
                self.pos = p + 4;
                self.length = self.length - 4;
            }
        } else if self.length > 0 {
            let mut i: u32 = 0;
            while self.length > 1 && self.pos < self.data.len() && i < 32
                invariant
                    self.wf(),
                    self.data@ == old(self).data@,
                    i % 8 == 0,
                    i <= 32,
                    self.k == old(self).k,
                    self.num_runs == old(self).num_runs,
                    self.runs == old(self).runs,
                    self.bits == old(self).bits,
                    self.tmp == old(self).tmp,
                    self.unstuff == old(self).unstuff,
                    mel_tail(self.data@, self.pos as int, self.length as int, val, i) == mel_tail(
                        old(self).data@,
                        old(self).pos as int,
                        old(self).length as int,
                        0xFFFF_FFFFu32,
                        0,
                    ),
                decreases self.length,
            {
                let v = self.data[self.pos];
                self.pos = self.pos + 1;
                val = (val & !(0xFFu32 << i)) | ((v as u32) << i);
                self.length = self.length - 1;
                i = i + 8;
            }
            if self.length == 1 && self.pos < self.data.len() && i < 32 {
                let v = self.data[self.pos] | 0x0F;
                self.pos = self.pos + 1;
                val = (val & !(0xFFu32 << i)) | ((v as u32) << i);
                self.length = self.length - 1;
            }
        }
        let b0: u32 = (val >> 0u32) & 0xFF;
        let b1: u32 = (val >> 8u32) & 0xFF;
        let b2: u32 = (val >> 16u32) & 0xFF;
        let b3: u32 = (val >> 24u32) & 0xFF;
        let mut bits_local: u32 = if self.unstuff { 31 } else { 32 };
        let mut t: u32 = 0;
        t = (t << (if b0 == 0xFF { 7u32 } else { 8u32 })) | b0;
        bits_local = bits_local - if b0 == 0xFF { 1u32 } else { 0u32 };
        t = (t << (if b1 == 0xFF { 7u32 } else { 8u32 })) | b1;
        bits_local = bits_local - if b1 == 0xFF { 1u32 } else { 0u32 };
        t = (t << (if b2 == 0xFF { 7u32 } else { 8u32 })) | b2;
        bits_local = bits_local - if b2 == 0xFF { 1u32 } else { 0u32 };
        t = (t << (if b3 == 0xFF { 7u32 } else { 8u32 })) | b3;
        self.unstuff = b3 == 0xFF;
        self.tmp = self.tmp | ((t as u64) << (64 - bits_local - self.bits) as u64);
        self.bits = self.bits + bits_local;
    }

    /// The next `count` bits of the window, refilled first when it holds fewer.
    pub fn peek_bits(&mut self, count: u8) -> (r: u32)
        requires
            old(self).wf(),
            1 <= count <= 32,
        ensures
            final(self).wf(),
            final(self).data@ == old(self).data@,
            old(self).bits >= count ==> *final(self) == *old(self),
            r == ((final(self).tmp >> (64 - count) as u64) & ((1u64 << count as u64) - 1) as u64) as u32,
    {
        if self.bits < count as u32 {
            self.read();
        }
        proof {
            crate::bits::lemma_one_shl_u64(count as u64);
        }
        ((self.tmp >> (64 - count) as u64) & ((1u64 << count as u64) - 1)) as u32
    }

    /// Drops `count` bits from the window, then refills it when it holds fewer than 32.
    pub fn advance(&mut self, count: u8)
        requires
            old(self).wf(),
            count < 64,
        ensures
            final(self).wf(),
            final(self).data@ == old(self).data@,
            ({
                let bits = if old(self).bits >= count { (old(self).bits - count) as u32 } else { 0u32 };
                bits >= 32 ==> final(self).tmp == old(self).tmp << count as u64 && final(self).bits == bits
            }),
    {
        self.tmp = self.tmp << count as u64;
        self.bits = if self.bits >= count as u32 { self.bits - count as u32 } else { 0 };
        if self.bits < 32 {
            self.read();
        }
    }

    /// The registers MEL runs are decoded from.
    pub open spec fn mel_regs(&self) -> MelRuns {
        (self.tmp, self.bits, self.k, self.num_runs, self.runs)
    }

    /// Decodes MEL symbols into the run buffer (refilling the window first when it
    /// holds fewer than 6 bits), as `mel_runs` says.
    fn decode_runs(&mut self)
        requires
            old(self).wf(),
            old(self).num_runs == 0,
        ensures
            final(self).wf(),
            final(self).data@ == old(self).data@,
            0 <= final(self).num_runs,
            old(self).bits >= 6 ==> final(self).mel_regs() == mel_runs(old(self).mel_regs()),
    {
        if self.bits < 6 {
            self.read();
        }
        let ghost start = self.mel_regs();
        while self.bits >= 6 && self.num_runs < 8
            invariant
                self.wf(),
                self.data@ == old(self).data@,
                0 <= self.num_runs,
                mel_runs(self.mel_regs()) == mel_runs(start),
            decreases 8 - self.num_runs,
        {
            let e = mel_exponent(self.k) as u64;
            proof {
                crate::bits::lemma_one_shl_u64(e);
                vstd::arithmetic::power2::lemma2_to64();
                crate::bits::lemma_pow2_le(e as nat, 5);
            }
            let run: u64;
            if self.tmp & 0x8000_0000_0000_0000u64 != 0 {
                run = ((1u64 << e) - 1) * 2;
                self.k = if self.k + 1 < 12 { self.k + 1 } else { 12 };
                self.tmp = self.tmp << 1u64;
                self.bits = self.bits - 1;
            } else {
                let v = (self.tmp >> (63 - e)) & ((1u64 << e) - 1);
                proof {
                    crate::bits::lemma_and_bounded_u64(self.tmp >> (63 - e), ((1u64 << e) - 1) as u64);
                }
                run = v * 2 + 1;
                self.k = if self.k - 1 > 0 { self.k - 1 } else { 0 };
                self.tmp = self.tmp << (e + 1);
                self.bits = self.bits - (e as u32) - 1;
            }
            let sh = (self.num_runs * 7) as u64;
            self.runs = (self.runs & !(0x3Fu64 << sh)) | (run << sh);
            self.num_runs = self.num_runs + 1;
        }
    }

    /// The next MEL run: the low 7 bits of the run buffer (decoded first when none is
    /// buffered), which then moves on by 7 bits. The count of buffered runs goes down by
    /// one, below zero when none could be decoded.
    pub fn get_run(&mut self) -> (r: i32)
        requires
            old(self).wf(),
            old(self).num_runs > i32::MIN,
        ensures
            final(self).data@ == old(self).data@,
            old(self).num_runs != 0 ==> ({
                &&& r == (old(self).runs & 0x7Fu64) as i32
                &&& final(self).runs == old(self).runs >> 7u64
                &&& final(self).num_runs == old(self).num_runs - 1
            }),
            old(self).num_runs == 0 && old(self).bits >= 6 ==> ({
                let m = mel_runs(old(self).mel_regs());
                &&& r == (m.4 & 0x7Fu64) as i32
                &&& final(self).runs == m.4 >> 7u64
                &&& final(self).num_runs == m.3 - 1
            }),
    {
        if self.num_runs == 0 {
            self.decode_runs();
        }
        let run = (self.runs & 0x7F) as i32;
        self.runs = self.runs >> 7u64;
        self.num_runs = self.num_runs - 1;
        run
    }
}

} // verus!
