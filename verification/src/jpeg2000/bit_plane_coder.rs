//! Bit-plane coding of code-blocks (EBCOT tier 1, ISO/IEC 15444-1 Annex D):
//! significance propagation, magnitude refinement and cleanup passes over
//! stripes of four rows, with the MQ coder underneath.
use crate::error::JpeglsError;
use crate::jpeg2000::mq_coder::{contexts_valid, MqCoder};
use vstd::arithmetic::power2::pow2;
use vstd::prelude::*;

verus! {

/// Flag: the coefficient is significant.
pub const FLAG_SIG: u8 = 1;

/// Flag: the coefficient has been refined.
pub const FLAG_REFINE: u8 = 2;

/// Flag: the coefficient was coded in this bit-plane's significance pass.
pub const FLAG_VISITED: u8 = 4;

/// Flag: the coefficient is negative.
pub const FLAG_SIGN: u8 = 8;

/// Whether a flag byte marks a significant coefficient.
pub open spec fn is_sig(f: u8) -> bool {
    f & FLAG_SIG != 0
}

/// 1 for true, 0 for false.
pub open spec fn count_of(b: bool) -> int {
    if b { 1 } else { 0 }
}

/// The significance of a neighbour at `i`, as seen by the sign context: 0 if not
/// significant, else -1 or 1 by its sign.
pub open spec fn signed_sig(f: u8) -> int {
    if f & FLAG_SIG != 0 {
        if f & FLAG_SIGN != 0 { -1 } else { 1 }
    } else {
        0
    }
}

/// The zero coding context (Table D.1) from the number of significant horizontal,
/// vertical and diagonal neighbours, by subband orientation (2 swaps horizontal and
/// vertical, 3 is the HH table).
pub open spec fn zc_context(h0: int, v0: int, d: int, orient: u8) -> int {
    let h = if orient == 2 { v0 } else { h0 };
    let v = if orient == 2 { h0 } else { v0 };
    if orient <= 2 {
        if h == 0 {
            if v == 0 {
                if d == 0 { 0 } else if d == 1 { 1 } else { 2 }
            } else if v == 1 {
                3
            } else {
                4
            }
        } else if h == 1 {
            if v == 0 {
                if d == 0 { 5 } else { 6 }
            } else {
                7
            }
        } else {
            8
        }
    } else if orient == 3 {
        let hv = h + v;
        if d == 0 {
            if hv == 0 { 0 } else if hv == 1 { 1 } else { 2 }
        } else if d == 1 {
            if hv == 0 { 3 } else if hv == 1 { 4 } else { 5 }
        } else if d == 2 {
            if hv == 0 { 6 } else { 7 }
        } else {
            8
        }
    } else {
        0
    }
}

/// The sign coding context and XOR bit (Table D.3) from the clamped horizontal and
/// vertical sign contributions.
pub open spec fn sc_context(h: int, v: int) -> (int, u8) {
    if h == 1 {
        if v == 1 { (13, 0) } else if v == 0 { (12, 0) } else { (11, 0) }
    } else if h == 0 {
        if v == 1 { (10, 0) } else if v == 0 { (9, 0) } else { (10, 1) }
    } else {
        if v == 1 { (11, 1) } else if v == 0 { (12, 1) } else { (13, 1) }
    }
}

/// Table D.3 as a rule: with clamped contributions `h` (horizontal) and `v` (vertical),
/// the context is `9 + |v|` when `h` is 0 and `12 + h * v` otherwise; the sign is
/// flipped (XOR bit 1) exactly when `h` is negative, or `h` is 0 and `v` negative; and
/// negating both contributions keeps the context and flips the XOR bit.
pub proof fn lemma_sign_context_rule(h: int, v: int)
    requires
        -1 <= h <= 1,
        -1 <= v <= 1,
    ensures
        sc_context(h, v).0 == if h == 0 { 9 + (if v < 0 { -v } else { v }) } else { 12 + h * v },
        sc_context(h, v).1 == (if h < 0 || (h == 0 && v < 0) { 1u8 } else { 0u8 }),
        (h != 0 || v != 0) ==> sc_context(-h, -v).0 == sc_context(h, v).0 && sc_context(-h, -v).1 == 1 - sc_context(
            h,
            v,
        ).1,
{
    if h == 1 {
        assert(h * v == v);
    } else if h == -1 {
        assert(h * v == -v);
    }
}

/// `v` clamped to `-1..=1`.
pub open spec fn clamp1(v: int) -> int {
    if v < -1 { -1 } else if v > 1 { 1 } else { v }
}

/// Index in the padded flag array of coefficient `(x, y)`.
pub open spec fn padded_index(x: int, y: int, stride: int) -> int {
    (y + 1) * stride + x + 1
}

proof fn lemma_padded(x: int, y: int, w: int, h: int)
    requires
        0 <= x < w,
        0 <= y < h,
    ensures
        ({
            let s = w + 2;
            let i = padded_index(x, y, s);
            &&& 0 <= i - s - 1
            &&& i + s + 1 < (h + 2) * s
            &&& i == (y + 1) * s + (x + 1)
        }),
        0 <= y * w + x < w * h,
{
    let s = w + 2;
    assert((y + 1) * s >= s) by (nonlinear_arith)
        requires
            y >= 0,
            s >= 0,
    ;
    assert((y + 3) * s <= (h + 2) * s) by (nonlinear_arith)
        requires
            y + 1 <= h,
            s >= 0,
    ;
    assert((y + 1) * s + 2 * s == (y + 3) * s) by (nonlinear_arith);
    assert(0 <= y * w) by (nonlinear_arith)
        requires
            0 <= y,
            0 <= w,
    ;
    assert(y * w + x < w * h) by (nonlinear_arith)
        requires
            0 <= x < w,
            0 <= y < h,
    ;
}

/// Codes and decodes the coefficients of one code-block, bit-plane by bit-plane.
pub struct BitPlaneCoder<'a> {
    /// Block width.
    pub width: u32,
    /// Block height.
    pub height: u32,
    /// The coefficients to encode, row by row.
    pub data: &'a [i32],
    /// The decoded coefficients (sign and magnitude), row by row.
    pub coefficients: Vec<i32>,
    /// Per-coefficient state (significant, refined, visited).
    pub state: Vec<u8>,
    /// The MQ coder.
    pub mq: MqCoder,
    /// Coding passes decoded.
    pub num_passes_decoded: u32,
    /// Significance, sign and refinement flags, with a border of one on each side.
    pub padded_flags: Vec<u8>,
    /// Row length of `padded_flags`: the width plus two.
    pub stride: usize,
}

/// The significance bit of a coefficient's state.
pub open spec fn sig_bit(st: u8) -> bool {
    st & FLAG_SIG != 0
}

/// From `before` to `after` at bit-plane `bp`, no coefficient lost its significance,
/// and those that gained it have a 1 at `bp` in their magnitude.
pub open spec fn gains_where_bit_set<'a>(before: BitPlaneCoder<'a>, after: BitPlaneCoder<'a>, bp: u8) -> bool {
    &&& after.state@.len() == before.state@.len()
    &&& forall|i: int| 0 <= i < after.state@.len() && sig_bit(before.state@[i]) ==> #[trigger] sig_bit(after.state@[i])
    &&& forall|i: int|
        0 <= i < after.state@.len() && sig_bit(after.state@[i]) && !sig_bit(before.state@[i]) ==> magnitude_bit(
            #[trigger] before.data@[i],
            bp,
        ) != 0
}

/// Setting the significance flag of coefficient `idx`, whose magnitude has a 1 at
/// `bp`, keeps [`gains_where_bit_set`].
pub proof fn lemma_gain_step<'a>(o: BitPlaneCoder<'a>, s0: BitPlaneCoder<'a>, s1: BitPlaneCoder<'a>, idx: int, bp: u8)
    requires
        gains_where_bit_set(o, s0, bp),
        s0.data@ == o.data@,
        0 <= idx < s0.state@.len(),
        s1.state@ == s0.state@ || (s1.state@ == s0.state@.update(idx, s0.state@[idx] | FLAG_SIG) && magnitude_bit(
            o.data@[idx],
            bp,
        ) != 0),
    ensures
        gains_where_bit_set(o, s1, bp),
{
    lemma_flag_bits(s0.state@[idx]);
    assert forall|i: int| 0 <= i < s1.state@.len() && sig_bit(o.state@[i]) implies #[trigger] sig_bit(s1.state@[i]) by {
        assert(sig_bit(s0.state@[i]));
    }
    assert forall|i: int|
        0 <= i < s1.state@.len() && sig_bit(s1.state@[i]) && !sig_bit(o.state@[i]) implies magnitude_bit(
        #[trigger] o.data@[i],
        bp,
    ) != 0 by {
        if i != idx || s1.state@ == s0.state@ {
            assert(sig_bit(s0.state@[i]));
        }
    }
}

/// From `before` to `after` every coefficient kept its significance.
pub open spec fn significance_unchanged<'a>(before: BitPlaneCoder<'a>, after: BitPlaneCoder<'a>) -> bool {
    &&& after.state@.len() == before.state@.len()
    &&& forall|i: int| 0 <= i < after.state@.len() ==> #[trigger] sig_bit(after.state@[i]) == sig_bit(before.state@[i])
}

/// From `before` to `after` at bit-plane `bp`, only coefficients that were not
/// significant changed, each to `±2^bp`.
pub open spec fn only_new_significant<'a>(before: BitPlaneCoder<'a>, after: BitPlaneCoder<'a>, bp: u8) -> bool {
    &&& after.coefficients@.len() == before.coefficients@.len()
    &&& forall|i: int|
        0 <= i < after.coefficients@.len() ==> #[trigger] after.coefficients@[i] == before.coefficients@[i] || (
        !sig_bit(before.state@[i]) && (after.coefficients@[i] == pow2(bp as nat) || after.coefficients@[i]
            == -pow2(bp as nat)))
}

/// No coefficient loses its significance, and every changed one is significant.
pub open spec fn significance_kept<'a>(before: BitPlaneCoder<'a>, after: BitPlaneCoder<'a>) -> bool {
    &&& after.state@.len() == before.state@.len()
    &&& forall|i: int| 0 <= i < after.state@.len() && sig_bit(before.state@[i]) ==> #[trigger] sig_bit(after.state@[i])
    &&& forall|i: int|
        0 <= i < after.coefficients@.len() && after.coefficients@[i] != before.coefficients@[i] ==> sig_bit(
            #[trigger] after.state@[i],
        )
}

/// From `before` to `after` at bit-plane `bp`, only significant coefficients changed,
/// each moved `2^bp` away from 0.
pub open spec fn only_refined<'a>(before: BitPlaneCoder<'a>, after: BitPlaneCoder<'a>, bp: u8) -> bool {
    &&& after.coefficients@.len() == before.coefficients@.len()
    &&& forall|i: int|
        0 <= i < after.coefficients@.len() ==> #[trigger] after.coefficients@[i] == before.coefficients@[i] || (
        sig_bit(before.state@[i]) && after.coefficients@[i] == before.coefficients@[i] + if before.coefficients@[i]
            > 0 {
            pow2(bp as nat) as int
        } else {
            -pow2(bp as nat)
        })
}

/// Setting the significance or visited flag keeps the significance bit set, and the
/// visited flag leaves it as it was.
pub proof fn lemma_flag_bits(st: u8)
    by (bit_vector)
    ensures
        (st | 1u8) & 1u8 != 0,
        (st | 4u8) & 1u8 == st & 1u8,
        (st | 2u8) & 1u8 == st & 1u8,
        (st & !4u8) & 1u8 == st & 1u8,
        st & (FLAG_SIG | FLAG_VISITED) == 0 ==> st & FLAG_SIG == 0,
{
}

/// `after` is `before` with coefficient `idx` set to `±2^bp` and marked significant;
/// no other coefficient or state changes.
pub open spec fn became_significant<'a>(before: BitPlaneCoder<'a>, after: BitPlaneCoder<'a>, idx: int, bp: u8) -> bool {
    &&& after.coefficients@.len() == before.coefficients@.len()
    &&& after.state@.len() == before.state@.len()
    &&& (after.coefficients@[idx] == pow2(bp as nat) || after.coefficients@[idx] == -pow2(bp as nat))
    &&& after.state@[idx] == before.state@[idx] | FLAG_SIG
    &&& forall|j: int| 0 <= j < after.coefficients@.len() && j != idx ==> #[trigger] after.coefficients@[j] == before.coefficients@[j]
    &&& forall|j: int| 0 <= j < after.state@.len() && j != idx ==> #[trigger] after.state@[j] == before.state@[j]
}

impl<'a> BitPlaneCoder<'a> {
    /// Number of coefficients.
    pub open spec fn size(&self) -> int {
        self.width * self.height
    }

    /// The arrays have the block's shape and the MQ coder has its 19 valid contexts.
    pub open spec fn wf(&self) -> bool {
        &&& self.width * self.height <= u32::MAX
        &&& self.height <= u32::MAX - 4
        &&& self.stride == self.width + 2
        &&& (self.height + 2) * (self.width + 2) <= usize::MAX
        &&& self.padded_flags@.len() == (self.height + 2) * (self.width + 2)
        &&& self.coefficients@.len() == self.size()
        &&& self.state@.len() == self.size()
        &&& self.mq.contexts@.len() == 19
        &&& contexts_valid(self.mq.contexts@)
    }

    /// The initial context states: all 0 but the zero-coding context 0 (state 4), the
    /// run-length context 17 (state 3) and the uniform context 18 (state 46).
    pub open spec fn initial_contexts() -> Seq<u8> {
        Seq::new(19, |i: int| if i == 0 { 8u8 } else if i == 17 { 6u8 } else if i == 18 { 92u8 } else { 0u8 })
    }

    /// A coder for a `width` by `height` block of `data`, all flags clear.
    pub fn new(width: u32, height: u32, data: &'a [i32]) -> (r: Self)
        requires
            width * height <= u32::MAX,
            height <= u32::MAX - 4,
            (height + 2) * (width + 2) <= usize::MAX,
        ensures
            r.wf(),
            r.width == width,
            r.height == height,
            r.data@ == data@,
            r.num_passes_decoded == 0,
            r.mq.contexts@ == Self::initial_contexts(),
            forall|i: int| 0 <= i < r.size() ==> #[trigger] r.coefficients@[i] == 0 && r.state@[i] == 0,
            forall|i: int| 0 <= i < r.padded_flags@.len() ==> #[trigger] r.padded_flags@[i] == 0,
    {
        let size: usize = (width * height) as usize;
        assert(width + 2 <= (height + 2) * (width + 2)) by (nonlinear_arith)
            requires
                width >= 0,
                height >= 0,
        ;
        let stride: usize = width as usize + 2;
        let flags_len: usize = (height as usize + 2) * stride;
        let mut mq = MqCoder::new();
        mq.init_contexts(19);
        let mut i: usize = 0;
        while i < 19
            invariant
                i <= 19,
                mq.contexts@ == Seq::new(19, |k: int| 0u8),
            decreases 19 - i,
        {
            mq.set_context(i, 0);
            assert(mq.contexts@ =~= Seq::new(19, |k: int| 0u8));
            i = i + 1;
        }
        assert(3u8 << 1u8 == 6 && 46u8 << 1u8 == 92 && 4u8 << 1u8 == 8) by (bit_vector);
        mq.set_context(17, 3u8 << 1u8);
        mq.set_context(18, 46u8 << 1u8);
        mq.set_context(0, 4u8 << 1u8);
        assert(mq.contexts@ =~= Self::initial_contexts());
        let padded_flags = zeros_u8(flags_len);
        let coefficients = zeros_i32(size);
        let state = zeros_u8(size);
        Self { width, height, data, coefficients, state, mq, num_passes_decoded: 0, padded_flags, stride }
    }

    fn reset_flags(&mut self)
        ensures
            final(self).padded_flags@.len() == old(self).padded_flags@.len(),
            forall|i: int| 0 <= i < final(self).padded_flags@.len() ==> #[trigger] final(self).padded_flags@[i] == 0,
            final(self).width == old(self).width && final(self).height == old(self).height,
            final(self).stride == old(self).stride,
            final(self).data@ == old(self).data@,
            final(self).coefficients@ == old(self).coefficients@,
            final(self).state@ == old(self).state@,
            final(self).mq == old(self).mq,
            final(self).num_passes_decoded == old(self).num_passes_decoded,
    {
        let n = self.padded_flags.len();
        let mut i: usize = 0;
        while i < n
            invariant
                n == self.padded_flags@.len(),
                i <= n,
                forall|k: int| 0 <= k < i ==> #[trigger] self.padded_flags@[k] == 0,
                self.width == old(self).width && self.height == old(self).height,
                self.stride == old(self).stride,
                self.data@ == old(self).data@,
                self.coefficients@ == old(self).coefficients@,
                self.state@ == old(self).state@,
                self.mq == old(self).mq,
                self.num_passes_decoded == old(self).num_passes_decoded,
                n == old(self).padded_flags@.len(),
            decreases n - i,
        {
            self.padded_flags.set(i, 0);
            i = i + 1;
        }
    }

    /// The counts of significant horizontal, vertical and diagonal neighbours of `(x, y)`.
    fn get_neighbor_counts(&self, x: u32, y: u32) -> (r: (u8, u8, u8))
        requires
            self.wf(),
            x < self.width,
            y < self.height,
        ensures
            ({
                let f = self.padded_flags@;
                let s = self.stride as int;
                let i = padded_index(x as int, y as int, s);
                &&& r.0 == count_of(is_sig(f[i - 1])) + count_of(is_sig(f[i + 1]))
                &&& r.1 == count_of(is_sig(f[i - s])) + count_of(is_sig(f[i + s]))
                &&& r.2 == count_of(is_sig(f[i - s - 1])) + count_of(is_sig(f[i - s + 1])) + count_of(
                    is_sig(f[i + s - 1]),
                ) + count_of(is_sig(f[i + s + 1]))
            }),
            r.0 <= 2 && r.1 <= 2 && r.2 <= 4,
    {
        proof {
            lemma_padded(x as int, y as int, self.width as int, self.height as int);
        }
        let s = self.stride;
        let idx = (y as usize + 1) * s + (x as usize + 1);
        let h: u8 = sig_count(self.padded_flags[idx - 1]) + sig_count(self.padded_flags[idx + 1]);
        let v: u8 = sig_count(self.padded_flags[idx - s]) + sig_count(self.padded_flags[idx + s]);
        let d: u8 = sig_count(self.padded_flags[idx - s - 1]) + sig_count(self.padded_flags[idx - s + 1]) + sig_count(
            self.padded_flags[idx + s - 1],
        ) + sig_count(self.padded_flags[idx + s + 1]);
        (h, v, d)
    }

    /// The zero coding context of `(x, y)` for subband orientation `orientation`.
    fn get_context_zc(&self, x: u32, y: u32, orientation: u8) -> (r: usize)
        requires
            self.wf(),
            x < self.width,
            y < self.height,
        ensures
            r < 9,
            ({
                let f = self.padded_flags@;
                let s = self.stride as int;
                let i = padded_index(x as int, y as int, s);
                r == zc_context(
                    count_of(is_sig(f[i - 1])) + count_of(is_sig(f[i + 1])),
                    count_of(is_sig(f[i - s])) + count_of(is_sig(f[i + s])),
                    count_of(is_sig(f[i - s - 1])) + count_of(is_sig(f[i - s + 1])) + count_of(is_sig(f[i + s - 1]))
                        + count_of(is_sig(f[i + s + 1])),
                    orientation,
                )
            }),
    {
        let (h0, v0, d) = self.get_neighbor_counts(x, y);
        let h = if orientation == 2 { v0 } else { h0 };
        let v = if orientation == 2 { h0 } else { v0 };
        if orientation <= 2 {
            if h == 0 {
                if v == 0 {
                    if d == 0 {
                        0
                    } else if d == 1 {
                        1
                    } else {
                        2
                    }
                } else if v == 1 {
                    3
                } else {
                    4
                }
            } else if h == 1 {
                if v == 0 {
                    if d == 0 {
                        5
                    } else {
                        6
                    }
                } else {
                    7
                }
            } else {
                8
            }
        } else if orientation == 3 {
            let hv = h + v;
            if d == 0 {
                if hv == 0 {
                    0
                } else if hv == 1 {
                    1
                } else {
                    2
                }
            } else if d == 1 {
                if hv == 0 {
                    3
                } else if hv == 1 {
                    4
                } else {
                    5
                }
            } else if d == 2 {
                if hv == 0 {
                    6
                } else {
                    7
                }
            } else {
                8
            }
        } else {
            0
        }
    }

    /// The sign coding context of `(x, y)` and the bit to XOR the sign with.
    fn get_context_sc(&self, x: u32, y: u32) -> (r: (usize, u8))
        requires
            self.wf(),
            x < self.width,
            y < self.height,
        ensures
            9 <= r.0 <= 13,
            r.1 <= 1,
            ({
                let f = self.padded_flags@;
                let s = self.stride as int;
                let i = padded_index(x as int, y as int, s);
                (r.0 as int, r.1) == sc_context(
                    clamp1(signed_sig(f[i - 1]) + signed_sig(f[i + 1])),
                    clamp1(signed_sig(f[i - s]) + signed_sig(f[i + s])),
                )
            }),
    {
        proof {
            lemma_padded(x as int, y as int, self.width as int, self.height as int);
        }
        let s = self.stride;
        let idx = (y as usize + 1) * s + (x as usize + 1);
        let h_sum: i32 = sign_contribution(self.padded_flags[idx - 1]) + sign_contribution(self.padded_flags[idx + 1]);
        let v_sum: i32 = sign_contribution(self.padded_flags[idx - s]) + sign_contribution(self.padded_flags[idx + s]);
        let h: i32 = if h_sum < -1 { -1 } else if h_sum > 1 { 1 } else { h_sum };
        let v: i32 = if v_sum < -1 { -1 } else if v_sum > 1 { 1 } else { v_sum };
        if h == 1 {
            if v == 1 { (13, 0) } else if v == 0 { (12, 0) } else { (11, 0) }
        } else if h == 0 {
            if v == 1 { (10, 0) } else if v == 0 { (9, 0) } else { (10, 1) }
        } else {
            if v == 1 { (11, 1) } else if v == 0 { (12, 1) } else { (13, 1) }
        }
    }

    /// The magnitude refinement context of `(x, y)`: 16 once refined, else 15 with a
    /// significant neighbour, else 14.
    fn get_context_mag(&self, x: u32, y: u32) -> (r: usize)
        requires
            self.wf(),
            x < self.width,
            y < self.height,
        ensures
            14 <= r <= 16,
            ({
                let f = self.padded_flags@;
                let s = self.stride as int;
                let i = padded_index(x as int, y as int, s);
                r == if f[i] & FLAG_REFINE != 0 {
                    16usize
                } else if (f[i - 1] | f[i + 1] | f[i - s] | f[i + s] | f[i - s - 1] | f[i - s + 1] | f[i + s - 1]
                    | f[i + s + 1]) & FLAG_SIG != 0 {
                    15usize
                } else {
                    14usize
                }
            }),
    {
        proof {
            lemma_padded(x as int, y as int, self.width as int, self.height as int);
        }
        let s = self.stride;
        let idx = (y as usize + 1) * s + (x as usize + 1);
        if (self.padded_flags[idx] & FLAG_REFINE) != 0 {
            16
        } else {
            let neighbors = (self.padded_flags[idx - 1] | self.padded_flags[idx + 1] | self.padded_flags[idx - s]
                | self.padded_flags[idx + s] | self.padded_flags[idx - s - 1] | self.padded_flags[idx - s + 1]
                | self.padded_flags[idx + s - 1] | self.padded_flags[idx + s + 1]) & FLAG_SIG;
            if neighbors != 0 {
                15
            } else {
                14
            }
        }
    }
}

fn sig_count(f: u8) -> (r: u8)
    ensures
        r == count_of(is_sig(f)),
{
    if (f & FLAG_SIG) != 0 {
        1
    } else {
        0
    }
}

fn sign_contribution(f: u8) -> (r: i32)
    ensures
        r == signed_sig(f),
{
    if (f & FLAG_SIG) != 0 {
        if (f & FLAG_SIGN) != 0 {
            -1
        } else {
            1
        }
    } else {
        0
    }
}

fn zeros_u8(n: usize) -> (r: Vec<u8>)
    ensures
        r@.len() == n,
        forall|i: int| 0 <= i < n ==> #[trigger] r@[i] == 0,
{
    let mut v: Vec<u8> = Vec::new();
    let mut k: usize = 0;
    while k < n
        invariant
            k <= n,
            v@.len() == k,
            forall|i: int| 0 <= i < k ==> #[trigger] v@[i] == 0,
        decreases n - k,
    {
        v.push(0);
        k = k + 1;
    }
    v
}

fn zeros_i32(n: usize) -> (r: Vec<i32>)
    ensures
        r@.len() == n,
        forall|i: int| 0 <= i < n ==> #[trigger] r@[i] == 0,
{
    let mut v: Vec<i32> = Vec::new();
    let mut k: usize = 0;
    while k < n
        invariant
            k <= n,
            v@.len() == k,
            forall|i: int| 0 <= i < k ==> #[trigger] v@[i] == 0,
        decreases n - k,
    {
        v.push(0);
        k = k + 1;
    }
    v
}


impl<'a> BitPlaneCoder<'a> {
    /// `other` has the shape and the source data of `self`.
    pub open spec fn same_shape(&self, other: &Self) -> bool {
        &&& self.width == other.width
        &&& self.height == other.height
        &&& self.stride == other.stride
        &&& self.data@ == other.data@
    }

    /// Ready to encode: valid, the MQ encoder started, the data covering the block with
    /// no coefficient at `i32::MIN`.
    pub open spec fn enc_ready(&self) -> bool {
        &&& self.wf()
        &&& self.mq.enc_wf()
        &&& self.data@.len() >= self.size()
        &&& forall|i: int| 0 <= i < self.size() ==> #[trigger] self.data@[i] != i32::MIN
    }

    /// Marks `(x, y)` significant when `sig`, and records its sign when given.
    fn update_flags(&mut self, x: u32, y: u32, sig: bool, sign: Option<u8>)
        requires
            old(self).wf(),
            x < old(self).width,
            y < old(self).height,
        ensures
            final(self).wf(),
            final(self).same_shape(old(self)),
            final(self).coefficients@ == old(self).coefficients@,
            final(self).state@ == old(self).state@,
            final(self).mq == old(self).mq,
            final(self).num_passes_decoded == old(self).num_passes_decoded,
            ({
                let i = padded_index(x as int, y as int, old(self).stride as int);
                let f0 = old(self).padded_flags@[i];
                let f1: u8 = if sig { f0 | FLAG_SIG } else { f0 };
                final(self).padded_flags@ == old(self).padded_flags@.update(
                    i,
                    match sign {
                        Some(s) => if s != 0 { f1 | FLAG_SIGN } else { f1 & !FLAG_SIGN },
                        None => f1,
                    },
                )
            }),
    {
        proof {
            lemma_padded(x as int, y as int, self.width as int, self.height as int);
        }
        let idx = (y as usize + 1) * self.stride + (x as usize + 1);
        if sig {
            let f = self.padded_flags[idx];
            self.padded_flags.set(idx, f | FLAG_SIG);
        }
        match sign {
            Some(s) => {
                let f = self.padded_flags[idx];
                if s != 0 {
                    self.padded_flags.set(idx, f | FLAG_SIGN);
                } else {
                    self.padded_flags.set(idx, f & !FLAG_SIGN);
                }
            },
            None => {},
        }
    }

    /// Marks `(x, y)` refined.
    fn update_flag_refined(&mut self, x: u32, y: u32)
        requires
            old(self).wf(),
            x < old(self).width,
            y < old(self).height,
        ensures
            final(self).wf(),
            final(self).same_shape(old(self)),
            final(self).coefficients@ == old(self).coefficients@,
            final(self).state@ == old(self).state@,
            final(self).mq == old(self).mq,
            final(self).num_passes_decoded == old(self).num_passes_decoded,
            ({
                let i = padded_index(x as int, y as int, old(self).stride as int);
                final(self).padded_flags@ == old(self).padded_flags@.update(
                    i,
                    old(self).padded_flags@[i] | FLAG_REFINE,
                )
            }),
    {
        proof {
            lemma_padded(x as int, y as int, self.width as int, self.height as int);
        }
        let idx = (y as usize + 1) * self.stride + (x as usize + 1);
        let f = self.padded_flags[idx];
        self.padded_flags.set(idx, f | FLAG_REFINE);
    }

    /// The MQ context states.
    pub fn get_mq_contexts(&self) -> (r: Vec<u8>)
        ensures
            r@ == self.mq.contexts@,
    {
        let mut v: Vec<u8> = Vec::new();
        let mut i: usize = 0;
        while i < self.mq.contexts.len()
            invariant
                i <= self.mq.contexts@.len(),
                v@ == self.mq.contexts@.take(i as int),
            decreases self.mq.contexts@.len() - i,
        {
            v.push(self.mq.contexts[i]);
            assert(v@ =~= self.mq.contexts@.take(i + 1));
            i = i + 1;
        }
        assert(self.mq.contexts@.take(self.mq.contexts@.len() as int) =~= self.mq.contexts@);
        v
    }

    /// Replaces the MQ context states.
    pub fn set_mq_contexts(&mut self, contexts: &[u8])
        ensures
            final(self).mq.contexts@ == contexts@,
            final(self).same_shape(old(self)),
            final(self).coefficients@ == old(self).coefficients@,
            final(self).state@ == old(self).state@,
            final(self).padded_flags@ == old(self).padded_flags@,
            final(self).num_passes_decoded == old(self).num_passes_decoded,
            old(self).wf() && contexts@.len() == 19 && contexts_valid(contexts@) ==> final(self).wf(),
    {
        let mut v: Vec<u8> = Vec::new();
        let mut i: usize = 0;
        while i < contexts.len()
            invariant
                i <= contexts@.len(),
                v@ == contexts@.take(i as int),
            decreases contexts@.len() - i,
        {
            v.push(contexts[i]);
            assert(v@ =~= contexts@.take(i + 1));
            i = i + 1;
        }
        assert(contexts@.take(contexts@.len() as int) =~= contexts@);
        self.mq.contexts = v;
    }

    /// The most significant bit-plane of the source data: the largest `bp` with `2^bp` at
    /// most the largest magnitude; `None` when all are zero.
    pub fn calculate_max_bit_plane(&self) -> (r: Option<u8>)
        requires
            forall|i: int| 0 <= i < self.data@.len() ==> -0x4000_0000 < #[trigger] self.data@[i] < 0x4000_0000,
        ensures
            ({
                let m = max_magnitude(self.data@);
                &&& r is None <==> m == 0
                &&& r matches Some(bp) ==> bp < 30 && pow2(bp as nat) <= m < pow2((bp + 1) as nat)
            }),
    {
        let mut max_val: i32 = 0;
        let mut i: usize = 0;
        while i < self.data.len()
            invariant
                i <= self.data@.len(),
                forall|k: int| 0 <= k < self.data@.len() ==> -0x4000_0000 < #[trigger] self.data@[k] < 0x4000_0000,
                max_val == max_magnitude(self.data@.take(i as int)),
                0 <= max_val < 0x4000_0000,
            decreases self.data@.len() - i,
        {
            let v = self.data[i];
            let m: i32 = if v < 0 { -v } else { v };
            assert(self.data@.take(i + 1).drop_last() =~= self.data@.take(i as int));
            if m > max_val {
                max_val = m;
            }
            i = i + 1;
        }
        assert(self.data@.take(self.data@.len() as int) =~= self.data@);
        if max_val == 0 {
            return None;
        }
        let mut bp: u8 = 0;
        proof {
            vstd::arithmetic::power2::lemma2_to64();
        }
        while (1u32 << (bp + 1) as u32) as i32 <= max_val
            invariant
                bp < 30,
                pow2(bp as nat) <= max_val < 0x4000_0000,
            decreases 30 - bp,
        {
            proof {
                vstd::arithmetic::power2::lemma2_to64();
                vstd::arithmetic::power2::lemma_pow2_strictly_increases((bp + 1) as nat, 32);
                vstd::bits::lemma_u32_shl_is_mul(1, (bp + 1) as u32);
                if bp + 1 < 30 {
                    vstd::arithmetic::power2::lemma_pow2_strictly_increases((bp + 1) as nat, 30);
                }
            }
            bp = bp + 1;
        }
        proof {
            vstd::arithmetic::power2::lemma2_to64();
            vstd::arithmetic::power2::lemma_pow2_strictly_increases((bp + 1) as nat, 32);
            vstd::bits::lemma_u32_shl_is_mul(1, (bp + 1) as u32);
            if bp + 1 < 30 {
                vstd::arithmetic::power2::lemma_pow2_strictly_increases((bp + 1) as nat, 30);
            }
            vstd::arithmetic::power2::lemma_pow2_unfold((bp + 1) as nat);
        }
        Some(bp)
    }
}

/// The largest magnitude among `s`.
pub open spec fn max_magnitude(s: Seq<i32>) -> int
    decreases s.len(),
{
    if s.len() == 0 {
        0
    } else {
        let m = if s.last() < 0 { -(s.last() as int) } else { s.last() as int };
        let rest = max_magnitude(s.drop_last());
        if m > rest { m } else { rest }
    }
}

/// The bit of magnitude `|v|` at plane `bp`.
pub open spec fn magnitude_bit(v: i32, bp: u8) -> u8 {
    (((if v < 0 { (-v) as i32 } else { v }) >> (bp as u32)) & 1) as u8
}

fn bit_of_magnitude(v: i32, bp: u8) -> (r: u8)
    requires
        v != i32::MIN,
        bp < 32,
    ensures
        r == magnitude_bit(v, bp),
        r <= 1,
{
    let mag: i32 = if v < 0 { -v } else { v };
    let b = (mag >> (bp as u32)) & 1;
    assert(b == (mag >> (bp as u32)) & 1 ==> 0 <= b <= 1) by (bit_vector);
    b as u8
}

impl<'a> BitPlaneCoder<'a> {
    fn clear_state(&mut self)
        requires
            old(self).wf(),
        ensures
            final(self).wf(),
            final(self).same_shape(old(self)),
            final(self).coefficients@ == old(self).coefficients@,
            final(self).padded_flags@ == old(self).padded_flags@,
            final(self).mq == old(self).mq,
            final(self).num_passes_decoded == old(self).num_passes_decoded,
            forall|i: int| 0 <= i < final(self).state@.len() ==> #[trigger] final(self).state@[i] == 0,
    {
        let n = self.state.len();
        let mut i: usize = 0;
        while i < n
            invariant
                self.wf(),
                self.same_shape(old(self)),
                self.coefficients@ == old(self).coefficients@,
                self.padded_flags@ == old(self).padded_flags@,
                self.mq == old(self).mq,
                self.num_passes_decoded == old(self).num_passes_decoded,
                n == self.state@.len(),
                i <= n,
                forall|k: int| 0 <= k < i ==> #[trigger] self.state@[k] == 0,
            decreases n - i,
        {
            self.state.set(i, 0);
            i = i + 1;
        }
    }

    fn clear_visited(&mut self)
        requires
            old(self).wf(),
        ensures
            final(self).wf(),
            final(self).same_shape(old(self)),
            final(self).coefficients@ == old(self).coefficients@,
            final(self).padded_flags@ == old(self).padded_flags@,
            final(self).mq == old(self).mq,
            final(self).num_passes_decoded == old(self).num_passes_decoded,
            forall|i: int|
                0 <= i < final(self).state@.len() ==> #[trigger] final(self).state@[i] == old(self).state@[i]
                    & !FLAG_VISITED,
    {
        let n = self.state.len();
        let mut i: usize = 0;
        while i < n
            invariant
                self.wf(),
                self.same_shape(old(self)),
                self.coefficients@ == old(self).coefficients@,
                self.padded_flags@ == old(self).padded_flags@,
                self.mq == old(self).mq,
                self.num_passes_decoded == old(self).num_passes_decoded,
                n == self.state@.len(),
                n == old(self).state@.len(),
                i <= n,
                forall|k: int| 0 <= k < i ==> #[trigger] self.state@[k] == old(self).state@[k] & !FLAG_VISITED,
                forall|k: int| i <= k < n ==> #[trigger] self.state@[k] == old(self).state@[k],
            decreases n - i,
        {
            let v = self.state[i];
            self.state.set(i, v & !FLAG_VISITED);
            i = i + 1;
        }
    }

    /// Codes the sign of a coefficient that became significant and marks it so.
    fn encode_significant(&mut self, x: u32, y: u32, idx: usize, val: i32)
        requires
            old(self).enc_ready(),
            x < old(self).width,
            y < old(self).height,
            idx == y * old(self).width + x,
        ensures
            final(self).enc_ready(),
            final(self).same_shape(old(self)),
            final(self).coefficients@ == old(self).coefficients@,
            final(self).num_passes_decoded == old(self).num_passes_decoded,
            final(self).state@ == old(self).state@.update(idx as int, old(self).state@[idx as int] | FLAG_SIG),
    {
        proof {
            lemma_padded(x as int, y as int, self.width as int, self.height as int);
        }
        let sign: u8 = if val < 0 { 1 } else { 0 };
        let (cx_sc, xor) = self.get_context_sc(x, y);
        self.mq.encode(sign ^ xor, cx_sc);
        let st = self.state[idx];
        self.state.set(idx, st | FLAG_SIG);
        self.update_flags(x, y, true, Some(sign));
    }

    /// The significance propagation pass at bit-plane `bp`: codes each insignificant
    /// coefficient with a significant neighbour, stripe by stripe, column by column.
    fn encode_sigprop(&mut self, bp: u8, orient: u8)
        requires
            old(self).enc_ready(),
            bp < 32,
        ensures
            final(self).enc_ready(),
            final(self).same_shape(old(self)),
            final(self).coefficients@ == old(self).coefficients@,
            final(self).num_passes_decoded == old(self).num_passes_decoded,
            gains_where_bit_set(*old(self), *final(self), bp),
    {
        let mut y_stripe: u32 = 0;
        while y_stripe < self.height
            invariant
                self.enc_ready(),
                gains_where_bit_set(*old(self), *self, bp),
                                self.same_shape(old(self)),
                                self.coefficients@ == old(self).coefficients@,
                                self.num_passes_decoded == old(self).num_passes_decoded,
                                bp < 32,
            decreases self.height + 4 - y_stripe,
        {
            let mut x: u32 = 0;
            while x < self.width
                invariant
                    self.enc_ready(),
                    gains_where_bit_set(*old(self), *self, bp),
                                    self.same_shape(old(self)),
                                    self.coefficients@ == old(self).coefficients@,
                                    self.num_passes_decoded == old(self).num_passes_decoded,
                                    bp < 32,
                                        y_stripe < self.height,
                decreases self.width - x,
            {
                let y_end: u32 = if y_stripe + 4 < self.height { y_stripe + 4 } else { self.height };
                let mut y: u32 = y_stripe;
                while y < y_end
                    invariant
                        self.enc_ready(),
                        gains_where_bit_set(*old(self), *self, bp),
                                        self.same_shape(old(self)),
                                        self.coefficients@ == old(self).coefficients@,
                                        self.num_passes_decoded == old(self).num_passes_decoded,
                                        bp < 32,
                                                x < self.width,
                        y_end <= self.height,
                    decreases y_end - y,
                {
                    proof {
                        lemma_padded(x as int, y as int, self.width as int, self.height as int);
                    }
                    let idx = (y * self.width + x) as usize;
                    if (self.state[idx] & FLAG_SIG) == 0 {
                        let (h, v, d) = self.get_neighbor_counts(x, y);
                        if h + v + d > 0 {
                            let ghost s0 = *self;
                            let val = self.data[idx];
                            let bit = bit_of_magnitude(val, bp);
                            let cx = self.get_context_zc(x, y, orient);
                            self.mq.encode(bit, cx);
                            if bit != 0 {
                                self.encode_significant(x, y, idx, val);
                            }
                            let st = self.state[idx];
                            self.state.set(idx, st | FLAG_VISITED);
                            proof {
                                lemma_flag_bits(st);
                                lemma_flag_bits(s0.state@[idx as int]);
                                assert(!sig_bit(s0.state@[idx as int]));
                            }
                        }
                    }
                    y = y + 1;
                }
                x = x + 1;
            }
            y_stripe = y_stripe + 4;
        }
    }

    /// The magnitude refinement pass at bit-plane `bp`: codes the bit of each
    /// coefficient that was significant before this bit-plane.
    fn encode_magref(&mut self, bp: u8)
        requires
            old(self).enc_ready(),
            bp < 32,
        ensures
            final(self).enc_ready(),
            final(self).same_shape(old(self)),
            final(self).coefficients@ == old(self).coefficients@,
            final(self).num_passes_decoded == old(self).num_passes_decoded,
            significance_unchanged(*old(self), *final(self)),
    {
        let mut y_stripe: u32 = 0;
        while y_stripe < self.height
            invariant
                self.enc_ready(),
                significance_unchanged(*old(self), *self),
                                self.same_shape(old(self)),
                                self.coefficients@ == old(self).coefficients@,
                                self.num_passes_decoded == old(self).num_passes_decoded,
                                bp < 32,
            decreases self.height + 4 - y_stripe,
        {
            let mut x: u32 = 0;
            while x < self.width
                invariant
                    self.enc_ready(),
                    significance_unchanged(*old(self), *self),
                                    self.same_shape(old(self)),
                                    self.coefficients@ == old(self).coefficients@,
                                    self.num_passes_decoded == old(self).num_passes_decoded,
                                    bp < 32,
                                        y_stripe < self.height,
                decreases self.width - x,
            {
                let y_end: u32 = if y_stripe + 4 < self.height { y_stripe + 4 } else { self.height };
                let mut y: u32 = y_stripe;
                while y < y_end
                    invariant
                        self.enc_ready(),
                        significance_unchanged(*old(self), *self),
                                        self.same_shape(old(self)),
                                        self.coefficients@ == old(self).coefficients@,
                                        self.num_passes_decoded == old(self).num_passes_decoded,
                                        bp < 32,
                                                x < self.width,
                        y_end <= self.height,
                    decreases y_end - y,
                {
                    proof {
                        lemma_padded(x as int, y as int, self.width as int, self.height as int);
                    }
                    let idx = (y * self.width + x) as usize;
                    let st = self.state[idx];
                    if (st & FLAG_SIG) != 0 && (st & FLAG_VISITED) == 0 {
                        let bit = bit_of_magnitude(self.data[idx], bp);
                        let cx = self.get_context_mag(x, y);
                        self.mq.encode(bit, cx);
                        let ghost s0 = *self;
                        self.state.set(idx, st | FLAG_REFINE);
                        self.update_flag_refined(x, y);
                        proof {
                            lemma_flag_bits(st);
                            assert(sig_bit(s0.state@[idx as int]) == sig_bit(old(self).state@[idx as int]));
                            assert forall|i: int| 0 <= i < self.state@.len() implies #[trigger] sig_bit(self.state@[i])
                                == sig_bit(old(self).state@[i]) by {
                                if i != idx {
                                    assert(sig_bit(s0.state@[i]) == sig_bit(old(self).state@[i]));
                                }
                            }
                        }
                    }
                    y = y + 1;
                }
                x = x + 1;
            }
            y_stripe = y_stripe + 4;
        }
    }

    /// Codes one coefficient in the cleanup pass: its bit, then its sign if it became significant.
    fn encode_cleanup_sample(&mut self, x: u32, y: u32, bp: u8, orient: u8)
        requires
            old(self).enc_ready(),
            x < old(self).width,
            y < old(self).height,
            bp < 32,
        ensures
            final(self).enc_ready(),
            final(self).same_shape(old(self)),
            final(self).coefficients@ == old(self).coefficients@,
            final(self).num_passes_decoded == old(self).num_passes_decoded,
            ({
                let idx = y * old(self).width + x;
                final(self).state@ == if magnitude_bit(old(self).data@[idx], bp) != 0 {
                    old(self).state@.update(idx, old(self).state@[idx] | FLAG_SIG)
                } else {
                    old(self).state@
                }
            }),
    {
        proof {
            lemma_padded(x as int, y as int, self.width as int, self.height as int);
        }
        let idx = (y * self.width + x) as usize;
        let val = self.data[idx];
        let bit = bit_of_magnitude(val, bp);
        let cx = self.get_context_zc(x, y, orient);
        self.mq.encode(bit, cx);
        if bit != 0 {
            self.encode_significant(x, y, idx, val);
        }
    }

    /// The cleanup pass at bit-plane `bp`: codes every coefficient not coded in this
    /// bit-plane yet; a column of four with no significant coefficient or neighbour is
    /// run-length coded first.
    fn encode_cleanup(&mut self, bp: u8, orient: u8)
        requires
            old(self).enc_ready(),
            bp < 32,
        ensures
            final(self).enc_ready(),
            final(self).same_shape(old(self)),
            final(self).coefficients@ == old(self).coefficients@,
            final(self).num_passes_decoded == old(self).num_passes_decoded,
            gains_where_bit_set(*old(self), *final(self), bp),
    {
        let mut y_stripe: u32 = 0;
        while y_stripe < self.height
            invariant
                self.enc_ready(),
                gains_where_bit_set(*old(self), *self, bp),
                                self.same_shape(old(self)),
                                self.coefficients@ == old(self).coefficients@,
                                self.num_passes_decoded == old(self).num_passes_decoded,
                                bp < 32,
            decreases self.height + 4 - y_stripe,
        {
            let mut x: u32 = 0;
            while x < self.width
                invariant
                    self.enc_ready(),
                    gains_where_bit_set(*old(self), *self, bp),
                                    self.same_shape(old(self)),
                                    self.coefficients@ == old(self).coefficients@,
                                    self.num_passes_decoded == old(self).num_passes_decoded,
                                    bp < 32,
                                        y_stripe < self.height,
                decreases self.width - x,
            {
                let y_end: u32 = if y_stripe + 4 < self.height { y_stripe + 4 } else { self.height };
                let stripe_height = y_end - y_stripe;
                let mut all_insignificant = true;
                let mut all_no_neighbors = true;
                let mut y: u32 = y_stripe;
                while y < y_end
                    invariant
                        self.enc_ready(),
                        gains_where_bit_set(*old(self), *self, bp),
                                        self.same_shape(old(self)),
                                        self.coefficients@ == old(self).coefficients@,
                                        self.num_passes_decoded == old(self).num_passes_decoded,
                                        bp < 32,
                                                x < self.width,
                        y_end <= self.height,
                    decreases y_end - y,
                {
                    proof {
                        lemma_padded(x as int, y as int, self.width as int, self.height as int);
                    }
                    let idx = (y * self.width + x) as usize;
                    if (self.state[idx] & (FLAG_SIG | FLAG_VISITED)) != 0 {
                        all_insignificant = false;
                        break;
                    }
                    let (h, v, d) = self.get_neighbor_counts(x, y);
                    if h + v + d > 0 {
                        all_no_neighbors = false;
                    }
                    y = y + 1;
                }
                if stripe_height == 4 && all_insignificant && all_no_neighbors {
                    let mut runlen: u8 = 4;
                    let mut i: u32 = 0;
                    while i < 4
                        invariant_except_break
                            runlen == 4,
                        invariant
                            self.enc_ready(),
                            gains_where_bit_set(*old(self), *self, bp),
                                            self.same_shape(old(self)),
                                            self.coefficients@ == old(self).coefficients@,
                                            self.num_passes_decoded == old(self).num_passes_decoded,
                                            bp < 32,
                                                        x < self.width,
                            y_stripe + 4 <= self.height,
                        ensures
                            runlen <= 4,
                            runlen < 4 ==> magnitude_bit(self.data@[(y_stripe + runlen) * self.width + x], bp) != 0,
                        decreases 4 - i,
                    {
                        let yy = y_stripe + i;
                        proof {
                            lemma_padded(x as int, yy as int, self.width as int, self.height as int);
                        }
                        let idx = (yy * self.width + x) as usize;
                        let bit = bit_of_magnitude(self.data[idx], bp);
                        if bit != 0 {
                            runlen = i as u8;
                            break;
                        }
                        i = i + 1;
                    }
                    let agg: u8 = if runlen != 4 { 1 } else { 0 };
                    self.mq.encode(agg, 17);
                    if runlen < 4 {
                        self.mq.encode((runlen >> 1u8) & 1, 18);
                        self.mq.encode(runlen & 1, 18);
                        let mut i: u32 = runlen as u32;
                        while i < 4
                            invariant
                                self.enc_ready(),
                                gains_where_bit_set(*old(self), *self, bp),
                                                self.same_shape(old(self)),
                                                self.coefficients@ == old(self).coefficients@,
                                                self.num_passes_decoded == old(self).num_passes_decoded,
                                                bp < 32,
                                                                x < self.width,
                                y_stripe + 4 <= self.height,
                                runlen < 4,
                                magnitude_bit(old(self).data@[(y_stripe + runlen) * self.width + x], bp) != 0,
                            decreases 4 - i,
                        {
                            let yy = y_stripe + i;
                            proof {
                                lemma_padded(x as int, yy as int, self.width as int, self.height as int);
                            }
                            let ghost s0 = *self;
                            if i == runlen as u32 {
                                let idx = (yy * self.width + x) as usize;
                                let val = self.data[idx];
                                self.encode_significant(x, yy, idx, val);
                            } else {
                                self.encode_cleanup_sample(x, yy, bp, orient);
                            }
                            proof {
                                lemma_gain_step(*old(self), s0, *self, yy * self.width + x, bp);
                            }
                            i = i + 1;
                        }
                    }
                } else {
                    let mut y: u32 = y_stripe;
                    while y < y_end
                        invariant
                            self.enc_ready(),
                            gains_where_bit_set(*old(self), *self, bp),
                                            self.same_shape(old(self)),
                                            self.coefficients@ == old(self).coefficients@,
                                            self.num_passes_decoded == old(self).num_passes_decoded,
                                            bp < 32,
                                                        x < self.width,
                            y_end <= self.height,
                        decreases y_end - y,
                    {
                        proof {
                            lemma_padded(x as int, y as int, self.width as int, self.height as int);
                        }
                        let idx = (y * self.width + x) as usize;
                        if (self.state[idx] & (FLAG_SIG | FLAG_VISITED)) == 0 {
                            let ghost s0 = *self;
                            self.encode_cleanup_sample(x, y, bp, orient);
                            proof {
                                lemma_gain_step(*old(self), s0, *self, idx as int, bp);
                            }
                        }
                        y = y + 1;
                    }
                }
                x = x + 1;
            }
            y_stripe = y_stripe + 4;
        }
        let ghost s1 = *self;
        self.clear_visited();
        proof {
            assert forall|ii: int| 0 <= ii < self.state@.len() implies #[trigger] sig_bit(self.state@[ii]) == sig_bit(
                s1.state@[ii],
            ) by {
                lemma_flag_bits(s1.state@[ii]);
            }
        }
    }

    /// Encodes the block from bit-plane `start_bp` down to `min_bp`: a cleanup pass at
    /// `start_bp`, then significance, refinement and cleanup passes at each plane below.
    /// Returns the number of passes.
    pub fn encode_codeblock(&mut self, start_bp: u8, min_bp: u8, orient: u8) -> (r: u8)
        requires
            old(self).wf(),
            old(self).data@.len() >= old(self).size(),
            forall|i: int| 0 <= i < old(self).size() ==> #[trigger] old(self).data@[i] != i32::MIN,
            start_bp < 32,
        ensures
            final(self).enc_ready(),
            final(self).same_shape(old(self)),
            r == if start_bp > min_bp { 1 + 3 * (start_bp - min_bp) } else { 1 },
    {
        self.mq.init_encoder();
        self.reset_flags();
        self.clear_state();
        self.encode_cleanup(start_bp, orient);
        let mut passes: u8 = 1;
        if start_bp > min_bp {
            let mut bp: u8 = start_bp;
            while bp > min_bp
                invariant
                    self.enc_ready(),
                    self.same_shape(old(self)),
                    start_bp < 32,
                    min_bp <= bp <= start_bp,
                    passes == 1 + 3 * (start_bp - bp),
                decreases bp,
            {
                bp = bp - 1;
                self.encode_sigprop(bp, orient);
                self.encode_magref(bp);
                self.encode_cleanup(bp, orient);
                passes = passes + 3;
            }
        }
        passes
    }
}

/// `2^bp` as an `i32`.
fn plane_value(bp: u8) -> (r: i32)
    requires
        bp <= 29,
    ensures
        r == pow2(bp as nat),
        0 < r <= 0x2000_0000,
{
    proof {
        vstd::arithmetic::power2::lemma2_to64();
        if bp < 29 {
            vstd::arithmetic::power2::lemma_pow2_strictly_increases(bp as nat, 29);
        }
        vstd::arithmetic::power2::lemma_pow2_strictly_increases(bp as nat, 32);
        vstd::bits::lemma_u32_shl_is_mul(1, bp as u32);
    }
    (1u32 << (bp as u32)) as i32
}

impl<'a> BitPlaneCoder<'a> {
    /// Ready to decode: valid and the MQ decoder started.
    pub open spec fn dec_ready(&self) -> bool {
        &&& self.wf()
        &&& self.mq.dec_wf()
    }

    /// Every decoded coefficient lies within `-l..=l`.
    pub open spec fn coefs_within(&self, l: int) -> bool {
        forall|i: int| 0 <= i < self.coefficients@.len() ==> -l <= #[trigger] self.coefficients@[i] <= l
    }

    /// Decodes the sign of a coefficient that became significant at plane `bp` and sets it to `±2^bp`.
    fn decode_significant(&mut self, x: u32, y: u32, idx: usize, bp: u8, Ghost(l): Ghost<int>)
        requires
            old(self).dec_ready(),
            x < old(self).width,
            y < old(self).height,
            idx == y * old(self).width + x,
            bp <= 29,
            old(self).coefs_within(l),
            pow2(bp as nat) <= l,
        ensures
            final(self).dec_ready(),
            final(self).same_shape(old(self)),
            final(self).num_passes_decoded == old(self).num_passes_decoded,
            final(self).coefs_within(l),
            became_significant(*old(self), *final(self), idx as int, bp),
    {
        proof {
            lemma_padded(x as int, y as int, self.width as int, self.height as int);
        }
        let (cx_sc, xor) = self.get_context_sc(x, y);
        let sign = self.mq.decode_bit(cx_sc) ^ xor;
        let st = self.state[idx];
        self.state.set(idx, st | FLAG_SIG);
        let p = plane_value(bp);
        if sign != 0 {
            self.coefficients.set(idx, -p);
        } else {
            self.coefficients.set(idx, p);
        }
        self.update_flags(x, y, true, Some(sign));
    }

    /// Decodes one coefficient's bit, then its sign if it became significant.
    fn decode_sample(&mut self, x: u32, y: u32, bp: u8, orient: u8, Ghost(l): Ghost<int>)
        requires
            old(self).dec_ready(),
            x < old(self).width,
            y < old(self).height,
            bp <= 29,
            old(self).coefs_within(l),
            pow2(bp as nat) <= l,
        ensures
            final(self).dec_ready(),
            final(self).same_shape(old(self)),
            final(self).num_passes_decoded == old(self).num_passes_decoded,
            final(self).coefs_within(l),
            final(self).coefficients@ == old(self).coefficients@ && final(self).state@ == old(self).state@
                || became_significant(*old(self), *final(self), y * old(self).width + x, bp),
    {
        proof {
            lemma_padded(x as int, y as int, self.width as int, self.height as int);
        }
        let idx = (y * self.width + x) as usize;
        let cx = self.get_context_zc(x, y, orient);
        let bit = self.mq.decode_bit(cx);
        if bit != 0 {
            self.decode_significant(x, y, idx, bp, Ghost(l));
        }
    }

    /// The significance propagation pass at bit-plane `bp`.
    fn decode_sigprop(&mut self, bp: u8, orient: u8, Ghost(l): Ghost<int>)
        requires
            old(self).dec_ready(),
            bp <= 29,
            old(self).coefs_within(l),
            pow2(bp as nat) <= l <= i32::MAX,
        ensures
            final(self).dec_ready(),
            final(self).same_shape(old(self)),
            final(self).num_passes_decoded == old(self).num_passes_decoded,
            final(self).coefs_within(l),
            only_new_significant(*old(self), *final(self), bp),
            significance_kept(*old(self), *final(self)),
    {
        let mut y_stripe: u32 = 0;
        while y_stripe < self.height
            invariant
                self.dec_ready(),
                self.same_shape(old(self)),
                self.num_passes_decoded == old(self).num_passes_decoded,
                bp <= 29,
                self.coefs_within(l),
                pow2(bp as nat) <= l <= i32::MAX,
                y_stripe <= self.height + 4,
                only_new_significant(*old(self), *self, bp),
                significance_kept(*old(self), *self),
            decreases self.height + 4 - y_stripe,
        {
            let mut x: u32 = 0;
            while x < self.width
                invariant
                    self.dec_ready(),
                    self.same_shape(old(self)),
                    self.num_passes_decoded == old(self).num_passes_decoded,
                    bp <= 29,
                    self.coefs_within(l),
                    pow2(bp as nat) <= l <= i32::MAX,
                    y_stripe < self.height,
                    only_new_significant(*old(self), *self, bp),
                    significance_kept(*old(self), *self),
                decreases self.width - x,
            {
                let y_end: u32 = if y_stripe + 4 < self.height { y_stripe + 4 } else { self.height };
                let mut y: u32 = y_stripe;
                while y < y_end
                    invariant
                        self.dec_ready(),
                        self.same_shape(old(self)),
                        self.num_passes_decoded == old(self).num_passes_decoded,
                        bp <= 29,
                        self.coefs_within(l),
                        pow2(bp as nat) <= l <= i32::MAX,
                        x < self.width,
                        y_end <= self.height,
                        only_new_significant(*old(self), *self, bp),
                        significance_kept(*old(self), *self),
                    decreases y_end - y,
                {
                    proof {
                        lemma_padded(x as int, y as int, self.width as int, self.height as int);
                    }
                    let idx = (y * self.width + x) as usize;
                    if (self.state[idx] & FLAG_SIG) == 0 {
                        let (h, v, d) = self.get_neighbor_counts(x, y);
                        if h + v + d > 0 {
                            let ghost s0 = *self;
                            proof {
                                assert(!sig_bit(self.state@[idx as int]));
                                assert(self.coefficients@[idx as int] == old(self).coefficients@[idx as int]);
                                assert(!sig_bit(old(self).state@[idx as int]));
                            }
                            self.decode_sample(x, y, bp, orient, Ghost(l));
                            let st = self.state[idx];
                            proof {
                                lemma_flag_bits(st);
                            }
                            self.state.set(idx, st | FLAG_VISITED);
                            proof {
                                assert forall|i: int| 0 <= i < self.state@.len() && sig_bit(old(self).state@[i]) implies #[trigger] sig_bit(self.state@[i]) by {
                                    if i != idx {
                                        assert(sig_bit(s0.state@[i]));
                                    } else {
                                        lemma_flag_bits(s0.state@[i]);
                                    }
                                }
                                assert forall|i: int|
                                    0 <= i < self.coefficients@.len() && self.coefficients@[i] != old(self).coefficients@[i]
                                    implies sig_bit(#[trigger] self.state@[i]) by {
                                    if i != idx {
                                        if self.coefficients@[i] == s0.coefficients@[i] {
                                            assert(sig_bit(s0.state@[i]));
                                        }
                                    } else {
                                        lemma_flag_bits(s0.state@[i]);
                                    }
                                }
                            }
                        }
                    }
                    y = y + 1;
                }
                x = x + 1;
            }
            y_stripe = y_stripe + 4;
        }
    }

    /// The magnitude refinement pass at bit-plane `bp`: a 1 bit adds `2^bp` to the magnitude.
    fn decode_magref(&mut self, bp: u8, Ghost(l): Ghost<int>)
        requires
            old(self).dec_ready(),
            bp <= 29,
            old(self).coefs_within(l),
            l + pow2(bp as nat) <= i32::MAX,
        ensures
            final(self).dec_ready(),
            final(self).same_shape(old(self)),
            final(self).num_passes_decoded == old(self).num_passes_decoded,
            final(self).coefs_within(l + pow2(bp as nat)),
            only_refined(*old(self), *final(self), bp),
    {
        let p = plane_value(bp);
        let w = self.width;
        let h = self.height;
        proof {
            assert forall|xx: int, yy: int| 0 <= xx < w && 0 <= yy < h implies #[trigger] self.coef_ok(
                old(self).coefficients@,
                old(self).state@,
                xx,
                yy,
                l,
                p as int,
                0,
                0,
                0,
            ) by {
                lemma_padded(xx, yy, w as int, h as int);
            }
        }
        let mut ys: u32 = 0;
        while ys < h
            invariant
                self.dec_ready(),
                self.same_shape(old(self)),
                self.num_passes_decoded == old(self).num_passes_decoded,
                bp <= 29,
                l + pow2(bp as nat) <= i32::MAX,
                p == pow2(bp as nat),
                w == self.width,
                h == self.height,
                ys <= h + 4,
                forall|xx: int, yy: int|
                    0 <= xx < w && 0 <= yy < h ==> #[trigger] self.coef_ok(old(self).coefficients@, old(self).state@, xx, yy, l, p as int, ys as int, 0, ys as int),
            decreases h + 4 - ys,
        {
            let mut x: u32 = 0;
            while x < w
                invariant
                    self.dec_ready(),
                    self.same_shape(old(self)),
                    self.num_passes_decoded == old(self).num_passes_decoded,
                    bp <= 29,
                    l + pow2(bp as nat) <= i32::MAX,
                    p == pow2(bp as nat),
                    w == self.width,
                    h == self.height,
                    ys < h,
                    x <= w,
                    forall|xx: int, yy: int|
                        0 <= xx < w && 0 <= yy < h ==> #[trigger] self.coef_ok(
                old(self).coefficients@,
                old(self).state@,
                            xx,
                            yy,
                            l,
                            p as int,
                            ys as int,
                            x as int,
                            ys as int,
                        ),
                decreases w - x,
            {
                let y_end: u32 = if ys + 4 < h { ys + 4 } else { h };
                let mut y: u32 = ys;
                while y < y_end
                    invariant
                        self.dec_ready(),
                        self.same_shape(old(self)),
                        self.num_passes_decoded == old(self).num_passes_decoded,
                        bp <= 29,
                        l + pow2(bp as nat) <= i32::MAX,
                        p == pow2(bp as nat),
                        w == self.width,
                        h == self.height,
                        x < w,
                        ys <= y <= y_end,
                        y_end == if ys + 4 < h { ys + 4 } else { h as int },
                        forall|xx: int, yy: int|
                            0 <= xx < w && 0 <= yy < h ==> #[trigger] self.coef_ok(
                old(self).coefficients@,
                old(self).state@,
                                xx,
                                yy,
                                l,
                                p as int,
                                ys as int,
                                x as int,
                                y as int,
                            ),
                    decreases y_end - y,
                {
                    proof {
                        lemma_padded(x as int, y as int, w as int, h as int);
                    }
                    let idx = (y * w + x) as usize;
                    let ghost c_start = self.coefficients@;
                    let ghost s0 = *self;
                    assert(s0.coef_ok(old(self).coefficients@, old(self).state@, x as int, y as int, l, p as int, ys as int, x as int, y as int));
                    let st = self.state[idx];
                    if (st & FLAG_SIG) != 0 && (st & FLAG_VISITED) == 0 {
                        let cx = self.get_context_mag(x, y);
                        let bit = self.mq.decode_bit(cx);
                        if bit != 0 {
                            let c = self.coefficients[idx];
                            assert(self.coef_ok(old(self).coefficients@, old(self).state@, x as int, y as int, l, p as int, ys as int, x as int, y as int));
                            if c > 0 {
                                self.coefficients.set(idx, c + p);
                            } else {
                                self.coefficients.set(idx, c - p);
                            }
                        }
                        self.state.set(idx, st | FLAG_REFINE);
                        self.update_flag_refined(x, y);
                    }
                    let ghost y1: int = y + 1;
                    proof {
                        assert forall|xx: int, yy: int| 0 <= xx < w && 0 <= yy < h implies #[trigger] self.coef_ok(
                old(self).coefficients@,
                old(self).state@,
                            xx,
                            yy,
                            l,
                            p as int,
                            ys as int,
                            x as int,
                            y1,
                        ) by {
                            if !(xx == x && yy == y) {
                                lemma_index_distinct(xx, yy, x as int, y as int, w as int, h as int);
                                assert(self.coefficients@[yy * w + xx] == c_start[yy * w + xx]);
                                assert(s0.coef_ok(old(self).coefficients@, old(self).state@, xx, yy, l, p as int, ys as int, x as int, y as int));
                            }
                        }
                    }
                    y = y + 1;
                }
                let ghost x1: int = x + 1;
                proof {
                    assert forall|xx: int, yy: int| 0 <= xx < w && 0 <= yy < h implies #[trigger] self.coef_ok(
                old(self).coefficients@,
                old(self).state@,
                        xx,
                        yy,
                        l,
                        p as int,
                        ys as int,
                        x1,
                        ys as int,
                    ) by {
                        assert(self.coef_ok(old(self).coefficients@, old(self).state@, xx, yy, l, p as int, ys as int, x as int, y as int));
                    }
                }
                x = x + 1;
            }
            let ghost ys4: int = ys + 4;
            proof {
                assert forall|xx: int, yy: int| 0 <= xx < w && 0 <= yy < h implies #[trigger] self.coef_ok(
                old(self).coefficients@,
                old(self).state@,
                    xx,
                    yy,
                    l,
                    p as int,
                    ys4,
                    0,
                    ys4,
                ) by {
                    assert(self.coef_ok(old(self).coefficients@, old(self).state@, xx, yy, l, p as int, ys as int, x as int, ys as int));
                }
            }
            ys = ys + 4;
        }
        proof {
            assert forall|i: int| 0 <= i < self.coefficients@.len() implies -(l + pow2(bp as nat)) <= #[trigger] self.coefficients@[i]
                <= l + pow2(bp as nat) by {
                lemma_index_split(i, w as int, h as int);
                assert(self.coef_ok(old(self).coefficients@, old(self).state@, i % (w as int), i / (w as int), l, p as int, ys as int, 0, ys as int));
            }
            assert forall|i: int| 0 <= i < self.coefficients@.len() implies #[trigger] self.coefficients@[i] == old(self).coefficients@[i]
                || (sig_bit(old(self).state@[i]) && self.coefficients@[i] == old(self).coefficients@[i] + if old(self).coefficients@[i] > 0 {
                pow2(bp as nat) as int
            } else {
                -pow2(bp as nat)
            }) by {
                lemma_index_split(i, w as int, h as int);
                assert(self.coef_ok(old(self).coefficients@, old(self).state@, i % (w as int), i / (w as int), l, p as int, ys as int, 0, ys as int));
            }
        }
    }

    /// Coefficient `(x, y)` lies within the bound the refinement pass gives it at position
    /// `(ys, x0, y0)` of its scan: `l`, plus `p` once the scan has passed it.
    /// Passed coefficients are as in `orig_c` or refined by `p` away from 0 (when they
    /// were significant); the others and their states are as in `orig_c` and `orig_s`.
    pub open spec fn coef_ok(
        &self,
        orig_c: Seq<i32>,
        orig_s: Seq<u8>,
        x: int,
        y: int,
        l: int,
        p: int,
        ys: int,
        x0: int,
        y0: int,
    ) -> bool {
        let passed = y < ys || (y < ys + 4 && (x < x0 || (x == x0 && y < y0)));
        let b = l + if passed { p } else { 0 };
        let i = y * self.width + x;
        let c = self.coefficients@[i];
        let c0 = orig_c[i];
        &&& -b <= c <= b
        &&& passed ==> c == c0 || (sig_bit(orig_s[i]) && c == c0 + if c0 > 0 { p } else { -p })
        &&& !passed ==> c == c0 && self.state@[i] == orig_s[i]
    }
}

proof fn lemma_index_distinct(xx: int, yy: int, x: int, y: int, w: int, h: int)
    requires
        0 <= xx < w,
        0 <= x < w,
        0 <= yy < h,
        0 <= y < h,
        !(xx == x && yy == y),
    ensures
        yy * w + xx != y * w + x,
        0 <= yy * w + xx < w * h,
{
    lemma_padded(xx, yy, w, h);
    if yy * w + xx == y * w + x {
        vstd::arithmetic::div_mod::lemma_fundamental_div_mod_converse(yy * w + xx, w, yy, xx);
        vstd::arithmetic::div_mod::lemma_fundamental_div_mod_converse(y * w + x, w, y, x);
    }
}

proof fn lemma_index_split(i: int, w: int, h: int)
    requires
        0 <= i < w * h,
        0 <= w,
        0 <= h,
    ensures
        w > 0,
        0 <= i % w < w,
        0 <= i / w < h,
        (i / w) * w + i % w == i,
{
    if w == 0 {
        assert(w * h == 0);
    }
    vstd::arithmetic::div_mod::lemma_fundamental_div_mod(i, w);
    assert(i / w < h) by (nonlinear_arith)
        requires
            w > 0,
            0 <= i < w * h,
            i == w * (i / w) + i % w,
            0 <= i % w,
    ;
    assert((i / w) * w == w * (i / w)) by (nonlinear_arith);
}

impl<'a> BitPlaneCoder<'a> {
    /// The cleanup pass at bit-plane `bp`.
    fn decode_cleanup(&mut self, bp: u8, orient: u8, Ghost(l): Ghost<int>)
        requires
            old(self).dec_ready(),
            bp <= 29,
            old(self).coefs_within(l),
            pow2(bp as nat) <= l <= i32::MAX,
        ensures
            final(self).dec_ready(),
            final(self).same_shape(old(self)),
            final(self).num_passes_decoded == old(self).num_passes_decoded,
            final(self).coefs_within(l),
            only_new_significant(*old(self), *final(self), bp),
            significance_kept(*old(self), *final(self)),
    {
        let mut y_stripe: u32 = 0;
        while y_stripe < self.height
            invariant
                self.dec_ready(),
                self.same_shape(old(self)),
                self.num_passes_decoded == old(self).num_passes_decoded,
                bp <= 29,
                self.coefs_within(l),
                pow2(bp as nat) <= l <= i32::MAX,
                y_stripe <= self.height + 4,
                only_new_significant(*old(self), *self, bp),
                significance_kept(*old(self), *self),
            decreases self.height + 4 - y_stripe,
        {
            let mut x: u32 = 0;
            while x < self.width
                invariant
                    self.dec_ready(),
                    self.same_shape(old(self)),
                    self.num_passes_decoded == old(self).num_passes_decoded,
                    bp <= 29,
                    self.coefs_within(l),
                    pow2(bp as nat) <= l <= i32::MAX,
                    y_stripe < self.height,
                    only_new_significant(*old(self), *self, bp),
                    significance_kept(*old(self), *self),
                decreases self.width - x,
            {
                let y_end: u32 = if y_stripe + 4 < self.height { y_stripe + 4 } else { self.height };
                let stripe_height = y_end - y_stripe;
                let mut all_insignificant = true;
                let mut all_no_neighbors = true;
                let mut y: u32 = y_stripe;
                while y < y_end
                    invariant
                        self.dec_ready(),
                        self.same_shape(old(self)),
                        self.num_passes_decoded == old(self).num_passes_decoded,
                        bp <= 29,
                        self.coefs_within(l),
                        pow2(bp as nat) <= l <= i32::MAX,
                        x < self.width,
                        y_end <= self.height,
                        only_new_significant(*old(self), *self, bp),
                        significance_kept(*old(self), *self),
                        y_stripe <= y <= y_end,
                        y_end == if y_stripe + 4 < self.height { y_stripe + 4 } else { self.height as int },
                        all_insignificant ==> forall|yy: int|
                            y_stripe <= yy < y ==> !sig_bit(#[trigger] self.state@[yy * self.width + x]),
                    ensures
                        all_insignificant ==> y >= y_end,
                        only_new_significant(*old(self), *self, bp),
                        significance_kept(*old(self), *self),
                        all_insignificant ==> forall|yy: int|
                            y_stripe <= yy < y ==> !sig_bit(#[trigger] self.state@[yy * self.width + x]),
                    decreases y_end - y,
                {
                    proof {
                        lemma_padded(x as int, y as int, self.width as int, self.height as int);
                    }
                    let idx = (y * self.width + x) as usize;
                    proof {
                        lemma_flag_bits(self.state@[idx as int]);
                    }
                    if (self.state[idx] & (FLAG_SIG | FLAG_VISITED)) != 0 {
                        all_insignificant = false;
                        break;
                    }
                    let (h, v, d) = self.get_neighbor_counts(x, y);
                    if h + v + d > 0 {
                        all_no_neighbors = false;
                    }
                    y = y + 1;
                }
                if stripe_height == 4 && all_insignificant && all_no_neighbors {
                    proof {
                        assert forall|k: int| 0 <= k < 4 implies !sig_bit(
                            #[trigger] self.state@[(y_stripe + k) * self.width + x],
                        ) by {
                            assert(!sig_bit(self.state@[(y_stripe + k) * self.width + x]));
                        }
                    }
                    let agg = self.mq.decode_bit(17);
                    if agg != 0 {
                        let bit1 = self.mq.decode_bit(18);
                        let bit0 = self.mq.decode_bit(18);
                        assert(bit1 <= 1 && bit0 <= 1 ==> (bit1 << 1u8) | bit0 <= 3) by (bit_vector);
                        let runlen: u8 = (bit1 << 1u8) | bit0;
                        let mut i: u8 = runlen;
                        while i < 4
                            invariant
                                self.dec_ready(),
                                self.same_shape(old(self)),
                                self.num_passes_decoded == old(self).num_passes_decoded,
                                bp <= 29,
                                self.coefs_within(l),
                                pow2(bp as nat) <= l <= i32::MAX,
                                x < self.width,
                                y_stripe + 4 <= self.height,
                                runlen <= 3,
                                runlen <= i <= 4,
                                only_new_significant(*old(self), *self, bp),
                                significance_kept(*old(self), *self),
                                forall|k: int|
                                    i <= k < 4 ==> !sig_bit(#[trigger] self.state@[(y_stripe + k) * self.width + x]),
                            decreases 4 - i,
                        {
                            let yy = y_stripe + i as u32;
                            proof {
                                lemma_padded(x as int, yy as int, self.width as int, self.height as int);
                            }
                            let ghost s0 = *self;
                            let ghost idx0: int = yy * self.width + x;
                            proof {
                                assert(!sig_bit(self.state@[(y_stripe + i) * self.width + x]));
                                assert(self.coefficients@[idx0] == old(self).coefficients@[idx0]);
                                assert(!sig_bit(old(self).state@[idx0]));
                            }
                            if i == runlen {
                                let idx = (yy * self.width + x) as usize;
                                self.decode_significant(x, yy, idx, bp, Ghost(l));
                            } else {
                                self.decode_sample(x, yy, bp, orient, Ghost(l));
                            }
                            proof {
                                lemma_flag_bits(s0.state@[idx0]);
                                assert forall|k: int| i + 1 <= k < 4 implies !sig_bit(
                                    #[trigger] self.state@[(y_stripe + k) * self.width + x],
                                ) by {
                                    lemma_index_distinct(x as int, y_stripe + k, x as int, yy as int, self.width as int, self.height as int);
                                    assert(!sig_bit(s0.state@[(y_stripe + k) * self.width + x]));
                                }
                                assert forall|ii: int| 0 <= ii < self.state@.len() && sig_bit(old(self).state@[ii]) implies #[trigger] sig_bit(self.state@[ii]) by {
                                    if ii != idx0 {
                                        assert(sig_bit(s0.state@[ii]));
                                    }
                                }
                                assert forall|ii: int|
                                    0 <= ii < self.coefficients@.len() && self.coefficients@[ii] != old(self).coefficients@[ii]
                                    implies sig_bit(#[trigger] self.state@[ii]) by {
                                    if ii != idx0 {
                                        if self.coefficients@[ii] == s0.coefficients@[ii] {
                                            assert(sig_bit(s0.state@[ii]));
                                        }
                                    }
                                }
                            }
                            i = i + 1;
                        }
                    }
                } else {
                    let mut y: u32 = y_stripe;
                    while y < y_end
                        invariant
                            self.dec_ready(),
                            self.same_shape(old(self)),
                            self.num_passes_decoded == old(self).num_passes_decoded,
                            bp <= 29,
                            self.coefs_within(l),
                            pow2(bp as nat) <= l <= i32::MAX,
                            x < self.width,
                            y_end <= self.height,
                            only_new_significant(*old(self), *self, bp),
                            significance_kept(*old(self), *self),
                        decreases y_end - y,
                    {
                        proof {
                            lemma_padded(x as int, y as int, self.width as int, self.height as int);
                        }
                        let idx = (y * self.width + x) as usize;
                        proof {
                            lemma_flag_bits(self.state@[idx as int]);
                        }
                        if (self.state[idx] & (FLAG_SIG | FLAG_VISITED)) == 0 {
                            let ghost s0 = *self;
                            proof {
                                assert(!sig_bit(self.state@[idx as int]));
                                assert(self.coefficients@[idx as int] == old(self).coefficients@[idx as int]);
                                assert(!sig_bit(old(self).state@[idx as int]));
                            }
                            self.decode_sample(x, y, bp, orient, Ghost(l));
                            proof {
                                lemma_flag_bits(s0.state@[idx as int]);
                                assert forall|ii: int| 0 <= ii < self.state@.len() && sig_bit(old(self).state@[ii]) implies #[trigger] sig_bit(self.state@[ii]) by {
                                    if ii != idx {
                                        assert(sig_bit(s0.state@[ii]));
                                    }
                                }
                                assert forall|ii: int|
                                    0 <= ii < self.coefficients@.len() && self.coefficients@[ii] != old(self).coefficients@[ii]
                                    implies sig_bit(#[trigger] self.state@[ii]) by {
                                    if ii != idx {
                                        if self.coefficients@[ii] == s0.coefficients@[ii] {
                                            assert(sig_bit(s0.state@[ii]));
                                        }
                                    }
                                }
                            }
                        }
                        y = y + 1;
                    }
                }
                x = x + 1;
            }
            y_stripe = y_stripe + 4;
        }
        let ghost s1 = *self;
        self.clear_visited();
        proof {
            assert forall|ii: int| 0 <= ii < self.state@.len() && sig_bit(old(self).state@[ii]) implies #[trigger] sig_bit(self.state@[ii]) by {
                lemma_flag_bits(s1.state@[ii]);
                assert(sig_bit(s1.state@[ii]));
            }
            assert forall|ii: int|
                0 <= ii < self.coefficients@.len() && self.coefficients@[ii] != old(self).coefficients@[ii]
                implies sig_bit(#[trigger] self.state@[ii]) by {
                lemma_flag_bits(s1.state@[ii]);
                assert(sig_bit(s1.state@[ii]));
            }
        }
    }

    fn clear_coefficients(&mut self)
        requires
            old(self).wf(),
        ensures
            final(self).wf(),
            final(self).same_shape(old(self)),
            final(self).state@ == old(self).state@,
            final(self).padded_flags@ == old(self).padded_flags@,
            final(self).mq == old(self).mq,
            final(self).num_passes_decoded == old(self).num_passes_decoded,
            forall|i: int| 0 <= i < final(self).coefficients@.len() ==> #[trigger] final(self).coefficients@[i] == 0,
    {
        let n = self.coefficients.len();
        let mut i: usize = 0;
        while i < n
            invariant
                self.wf(),
                self.same_shape(old(self)),
                self.state@ == old(self).state@,
                self.padded_flags@ == old(self).padded_flags@,
                self.mq == old(self).mq,
                self.num_passes_decoded == old(self).num_passes_decoded,
                n == self.coefficients@.len(),
                i <= n,
                forall|k: int| 0 <= k < i ==> #[trigger] self.coefficients@[k] == 0,
            decreases n - i,
        {
            self.coefficients.set(i, 0);
            i = i + 1;
        }
    }

    /// Decodes `num_passes` coding passes of the block from `data`, starting at
    /// bit-plane `start_bp`: a cleanup pass, then significance, refinement and cleanup
    /// passes at each plane below (the last plane repeats if passes remain). Returns the
    /// coefficients, each less than `2^(start_bp + 1)` plus the number of passes in magnitude.
    pub fn decode_codeblock(&mut self, data: &[u8], start_bp: u8, num_passes: u8, orient: u8) -> (r: Result<
        Vec<i32>,
        JpeglsError,
    >)
        requires
            old(self).wf(),
            start_bp <= 29,
            data@.len() + 2 <= usize::MAX,
        ensures
            final(self).dec_ready(),
            final(self).same_shape(old(self)),
            final(self).num_passes_decoded == old(self).num_passes_decoded,
            r matches Ok(v) && v@ == final(self).coefficients@,
            r is Ok,
            final(self).coefs_within(pow2((start_bp + 1) as nat) + num_passes),
            num_passes == 0 ==> forall|i: int| 0 <= i < final(self).coefficients@.len() ==> #[trigger] final(self).coefficients@[i] == 0,
    {
        self.mq.init_decoder(data);
        self.reset_flags();
        self.clear_state();
        self.clear_coefficients();
        proof {
            vstd::arithmetic::power2::lemma2_to64();
            vstd::arithmetic::power2::lemma_pow2_unfold((start_bp + 1) as nat);
            if start_bp < 29 {
                vstd::arithmetic::power2::lemma_pow2_strictly_increases(start_bp as nat, 29);
            }
        }
        let ghost top = pow2((start_bp + 1) as nat);
        let mut pass_idx: u8 = 0;
        if num_passes > 0 {
            let ghost l0 = pow2(start_bp as nat) as int;
            self.decode_cleanup(start_bp, orient, Ghost(l0));
            pass_idx = 1;
            let mut bp: u8 = start_bp;
            let ghost mut l: int = l0;
            while pass_idx < num_passes
                invariant
                    self.dec_ready(),
                    self.same_shape(old(self)),
                    self.num_passes_decoded == old(self).num_passes_decoded,
                    start_bp <= 29,
                    bp <= start_bp,
                    1 <= pass_idx <= num_passes,
                    top == pow2((start_bp + 1) as nat),
                    top == 2 * pow2(start_bp as nat),
                    pow2(start_bp as nat) <= 0x2000_0000,
                    pow2(start_bp as nat) <= l,
                    l <= top - pow2(bp as nat) + pass_idx,
                    self.coefs_within(l),
                decreases num_passes - pass_idx,
            {
                let ghost old_bp = bp;
                bp = if bp > 0 { bp - 1 } else { 0 };
                proof {
                    vstd::arithmetic::power2::lemma2_to64();
                    vstd::arithmetic::power2::lemma_pow2_pos(bp as nat);
                    if bp < start_bp {
                        vstd::arithmetic::power2::lemma_pow2_strictly_increases(bp as nat, start_bp as nat);
                    }
                    if old_bp > 0 {
                        vstd::arithmetic::power2::lemma_pow2_unfold(old_bp as nat);
                    }
                }
                self.decode_sigprop(bp, orient, Ghost(l));
                pass_idx = pass_idx + 1;
                if pass_idx >= num_passes {
                    break;
                }
                self.decode_magref(bp, Ghost(l));
                proof {
                    l = l + pow2(bp as nat);
                }
                pass_idx = pass_idx + 1;
                if pass_idx >= num_passes {
                    break;
                }
                self.decode_cleanup(bp, orient, Ghost(l));
                pass_idx = pass_idx + 1;
            }
            proof {
                assert(l <= top + num_passes);
            }
        }
        Ok(self.coefficients.clone())
    }
}
} // verus!
