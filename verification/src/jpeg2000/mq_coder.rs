//! The MQ arithmetic coder of JPEG 2000 (ISO/IEC 15444-1 Annex C): the
//! adaptive binary coder under the bit-plane coder.
use crate::bits::{lemma_and_bounded_u32, lemma_bit15, lemma_u32_double};
use vstd::prelude::*;

verus! {

/// One state of the probability estimation: the LPS probability estimate `qe`, the next
/// state after an MPS or an LPS, and whether an LPS switches the MPS sense.
#[derive(Clone, Copy, Debug, PartialEq, Eq, Structural)]
pub struct MqState {
    /// LPS probability estimate.
    pub qe: u16,
    /// Next state after an MPS renormalization.
    pub nmps: u8,
    /// Next state after an LPS.
    pub nlps: u8,
    /// 1 if an LPS switches the MPS sense.
    pub switch: u8,
}

/// The probability estimation table (Table C.2), indexed by state.
pub open spec fn mq_table(i: usize) -> MqState {
    match i {
        0 => MqState { qe: 0x5601, nmps: 1, nlps: 1, switch: 1 },
        1 => MqState { qe: 0x3401, nmps: 2, nlps: 6, switch: 0 },
        2 => MqState { qe: 0x1801, nmps: 3, nlps: 9, switch: 0 },
        3 => MqState { qe: 0x0ac1, nmps: 4, nlps: 12, switch: 0 },
        4 => MqState { qe: 0x0521, nmps: 5, nlps: 29, switch: 0 },
        5 => MqState { qe: 0x0221, nmps: 38, nlps: 33, switch: 0 },
        6 => MqState { qe: 0x5601, nmps: 7, nlps: 6, switch: 1 },
        7 => MqState { qe: 0x5401, nmps: 8, nlps: 14, switch: 0 },
        8 => MqState { qe: 0x4801, nmps: 9, nlps: 14, switch: 0 },
        9 => MqState { qe: 0x3801, nmps: 10, nlps: 14, switch: 0 },
        10 => MqState { qe: 0x3001, nmps: 11, nlps: 17, switch: 0 },
        11 => MqState { qe: 0x2401, nmps: 12, nlps: 18, switch: 0 },
        12 => MqState { qe: 0x1c01, nmps: 13, nlps: 20, switch: 0 },
        13 => MqState { qe: 0x1601, nmps: 29, nlps: 21, switch: 0 },
        14 => MqState { qe: 0x5601, nmps: 15, nlps: 14, switch: 1 },
        15 => MqState { qe: 0x5401, nmps: 16, nlps: 14, switch: 0 },
        16 => MqState { qe: 0x5101, nmps: 17, nlps: 15, switch: 0 },
        17 => MqState { qe: 0x4801, nmps: 18, nlps: 16, switch: 0 },
        18 => MqState { qe: 0x3801, nmps: 19, nlps: 17, switch: 0 },
        19 => MqState { qe: 0x3401, nmps: 20, nlps: 18, switch: 0 },
        20 => MqState { qe: 0x3001, nmps: 21, nlps: 19, switch: 0 },
        21 => MqState { qe: 0x2801, nmps: 22, nlps: 19, switch: 0 },
        22 => MqState { qe: 0x2401, nmps: 23, nlps: 20, switch: 0 },
        23 => MqState { qe: 0x2201, nmps: 24, nlps: 21, switch: 0 },
        24 => MqState { qe: 0x1c01, nmps: 25, nlps: 22, switch: 0 },
        25 => MqState { qe: 0x1801, nmps: 26, nlps: 23, switch: 0 },
        26 => MqState { qe: 0x1601, nmps: 27, nlps: 24, switch: 0 },
        27 => MqState { qe: 0x1401, nmps: 28, nlps: 25, switch: 0 },
        28 => MqState { qe: 0x1201, nmps: 29, nlps: 26, switch: 0 },
        29 => MqState { qe: 0x1101, nmps: 30, nlps: 27, switch: 0 },
        30 => MqState { qe: 0x0ac1, nmps: 31, nlps: 28, switch: 0 },
        31 => MqState { qe: 0x09c1, nmps: 32, nlps: 29, switch: 0 },
        32 => MqState { qe: 0x08a1, nmps: 33, nlps: 30, switch: 0 },
        33 => MqState { qe: 0x0521, nmps: 34, nlps: 31, switch: 0 },
        34 => MqState { qe: 0x0441, nmps: 35, nlps: 32, switch: 0 },
        35 => MqState { qe: 0x02a1, nmps: 36, nlps: 33, switch: 0 },
        36 => MqState { qe: 0x0221, nmps: 37, nlps: 34, switch: 0 },
        37 => MqState { qe: 0x0141, nmps: 38, nlps: 35, switch: 0 },
        38 => MqState { qe: 0x0111, nmps: 39, nlps: 36, switch: 0 },
        39 => MqState { qe: 0x0085, nmps: 40, nlps: 37, switch: 0 },
        40 => MqState { qe: 0x0049, nmps: 41, nlps: 38, switch: 0 },
        41 => MqState { qe: 0x0025, nmps: 42, nlps: 39, switch: 0 },
        42 => MqState { qe: 0x0015, nmps: 43, nlps: 40, switch: 0 },
        43 => MqState { qe: 0x0009, nmps: 44, nlps: 41, switch: 0 },
        44 => MqState { qe: 0x0005, nmps: 45, nlps: 42, switch: 0 },
        45 => MqState { qe: 0x0001, nmps: 45, nlps: 43, switch: 0 },
        46 => MqState { qe: 0x5601, nmps: 46, nlps: 46, switch: 0 },
        _ => MqState { qe: 0x5601, nmps: 46, nlps: 46, switch: 0 },
    }
}

/// Laws of Table C.2: an LPS switches the MPS sense exactly in the states whose estimate
/// is 0x5601, but for the non-adapting state 46; an MPS moves every adapting state but
/// the last (45) to a state of strictly smaller estimate; an LPS moves every adapting
/// state but the first to a state of strictly larger estimate, or, where it switches the
/// sense, leaves it in place; state 46 alone is fixed under both. An MPS steps to the
/// next state, but at the ends of the fast-attack run (5 to 38) and of the second run
/// (13 to 29); along the main run (14 to 45) an LPS steps back one state up to state 20
/// and two states beyond.
pub proof fn lemma_mq_table_rules(i: usize)
    requires
        i < 47,
    ensures
        mq_table(i).nmps as int == (if i == 5 {
            38int
        } else if i == 13 {
            29int
        } else if i >= 45 {
            i as int
        } else {
            i + 1
        }),
        15 <= i <= 45 ==> mq_table(i).nlps as int == (if i <= 20 { i - 1 } else { i - 2 }),
        mq_table(i).switch <= 1,
        (mq_table(i).switch == 1) == (mq_table(i).qe == 0x5601 && i != 46),
        i < 45 ==> mq_table(mq_table(i).nmps as usize).qe < mq_table(i).qe,
        1 <= i < 46 ==> mq_table(mq_table(i).nlps as usize).qe > mq_table(i).qe || (mq_table(i).nlps == i
            && mq_table(i).switch == 1),
        (mq_table(i).nmps == i && mq_table(i).nlps == i) == (i == 46),
{
}

/// Row `i` of the probability estimation table.
pub fn mq_state(i: usize) -> (r: MqState)
    requires
        i < 47,
    ensures
        r == mq_table(i),
        r.nmps < 47,
        r.nlps < 47,
        1 <= r.qe <= 0x5601,
{
    match i {
        0 => MqState { qe: 0x5601, nmps: 1, nlps: 1, switch: 1 },
        1 => MqState { qe: 0x3401, nmps: 2, nlps: 6, switch: 0 },
        2 => MqState { qe: 0x1801, nmps: 3, nlps: 9, switch: 0 },
        3 => MqState { qe: 0x0ac1, nmps: 4, nlps: 12, switch: 0 },
        4 => MqState { qe: 0x0521, nmps: 5, nlps: 29, switch: 0 },
        5 => MqState { qe: 0x0221, nmps: 38, nlps: 33, switch: 0 },
        6 => MqState { qe: 0x5601, nmps: 7, nlps: 6, switch: 1 },
        7 => MqState { qe: 0x5401, nmps: 8, nlps: 14, switch: 0 },
        8 => MqState { qe: 0x4801, nmps: 9, nlps: 14, switch: 0 },
        9 => MqState { qe: 0x3801, nmps: 10, nlps: 14, switch: 0 },
        10 => MqState { qe: 0x3001, nmps: 11, nlps: 17, switch: 0 },
        11 => MqState { qe: 0x2401, nmps: 12, nlps: 18, switch: 0 },
        12 => MqState { qe: 0x1c01, nmps: 13, nlps: 20, switch: 0 },
        13 => MqState { qe: 0x1601, nmps: 29, nlps: 21, switch: 0 },
        14 => MqState { qe: 0x5601, nmps: 15, nlps: 14, switch: 1 },
        15 => MqState { qe: 0x5401, nmps: 16, nlps: 14, switch: 0 },
        16 => MqState { qe: 0x5101, nmps: 17, nlps: 15, switch: 0 },
        17 => MqState { qe: 0x4801, nmps: 18, nlps: 16, switch: 0 },
        18 => MqState { qe: 0x3801, nmps: 19, nlps: 17, switch: 0 },
        19 => MqState { qe: 0x3401, nmps: 20, nlps: 18, switch: 0 },
        20 => MqState { qe: 0x3001, nmps: 21, nlps: 19, switch: 0 },
        21 => MqState { qe: 0x2801, nmps: 22, nlps: 19, switch: 0 },
        22 => MqState { qe: 0x2401, nmps: 23, nlps: 20, switch: 0 },
        23 => MqState { qe: 0x2201, nmps: 24, nlps: 21, switch: 0 },
        24 => MqState { qe: 0x1c01, nmps: 25, nlps: 22, switch: 0 },
        25 => MqState { qe: 0x1801, nmps: 26, nlps: 23, switch: 0 },
        26 => MqState { qe: 0x1601, nmps: 27, nlps: 24, switch: 0 },
        27 => MqState { qe: 0x1401, nmps: 28, nlps: 25, switch: 0 },
        28 => MqState { qe: 0x1201, nmps: 29, nlps: 26, switch: 0 },
        29 => MqState { qe: 0x1101, nmps: 30, nlps: 27, switch: 0 },
        30 => MqState { qe: 0x0ac1, nmps: 31, nlps: 28, switch: 0 },
        31 => MqState { qe: 0x09c1, nmps: 32, nlps: 29, switch: 0 },
        32 => MqState { qe: 0x08a1, nmps: 33, nlps: 30, switch: 0 },
        33 => MqState { qe: 0x0521, nmps: 34, nlps: 31, switch: 0 },
        34 => MqState { qe: 0x0441, nmps: 35, nlps: 32, switch: 0 },
        35 => MqState { qe: 0x02a1, nmps: 36, nlps: 33, switch: 0 },
        36 => MqState { qe: 0x0221, nmps: 37, nlps: 34, switch: 0 },
        37 => MqState { qe: 0x0141, nmps: 38, nlps: 35, switch: 0 },
        38 => MqState { qe: 0x0111, nmps: 39, nlps: 36, switch: 0 },
        39 => MqState { qe: 0x0085, nmps: 40, nlps: 37, switch: 0 },
        40 => MqState { qe: 0x0049, nmps: 41, nlps: 38, switch: 0 },
        41 => MqState { qe: 0x0025, nmps: 42, nlps: 39, switch: 0 },
        42 => MqState { qe: 0x0015, nmps: 43, nlps: 40, switch: 0 },
        43 => MqState { qe: 0x0009, nmps: 44, nlps: 41, switch: 0 },
        44 => MqState { qe: 0x0005, nmps: 45, nlps: 42, switch: 0 },
        45 => MqState { qe: 0x0001, nmps: 45, nlps: 43, switch: 0 },
        46 => MqState { qe: 0x5601, nmps: 46, nlps: 46, switch: 0 },
        _ => MqState { qe: 0x5601, nmps: 46, nlps: 46, switch: 0 },
    }
}

/// A context state: the table state in bits 7..1, the MPS sense in bit 0.
pub open spec fn context_valid(cx: u8) -> bool {
    cx < 94
}

/// Every context holds a state of the table.
pub open spec fn contexts_valid(s: Seq<u8>) -> bool {
    forall|i: int| 0 <= i < s.len() ==> context_valid(#[trigger] s[i])
}

/// The context state after coding `d` in context state `ctx` with interval `a`
/// (before the coding): an LPS moves to the LPS state and may switch the MPS sense;
/// an MPS that makes the interval renormalize moves to the MPS state; else no change.
pub open spec fn mq_encode_context(ctx: u8, a: u32, d: u8) -> u8 {
    let st = mq_table((ctx >> 1u8) as usize);
    let mps = ctx & 1;
    let a1 = a - st.qe;
    if d == mps {
        if a1 < 0x8000 { ((st.nmps << 1u8) | mps) as u8 } else { ctx }
    } else {
        ((st.nlps << 1u8) | if st.switch != 0 { mps ^ 1 } else { mps }) as u8
    }
}

/// What decoding in context state `ctx` with interval `a` and code register `c` gives:
/// the bit and the new context state. The code register's high half against `qe`
/// chooses the LPS or MPS subinterval, with the conditional exchange of the standard.
pub open spec fn mq_decode_step(ctx: u8, a: u32, c: u32) -> (u8, u8) {
    let st = mq_table((ctx >> 1u8) as usize);
    let mps = ctx & 1;
    let qe = st.qe as u32;
    let a1 = (a - qe) as u32;
    let lps_ctx = ((st.nlps << 1u8) | if st.switch != 0 { mps ^ 1 } else { mps }) as u8;
    let mps_ctx = ((st.nmps << 1u8) | mps) as u8;
    if (c >> 16u32) < qe {
        if a1 < qe { (mps, mps_ctx) } else { (mps ^ 1, lps_ctx) }
    } else if a1 < 0x8000 {
        if a1 < qe { (mps ^ 1, lps_ctx) } else { (mps, mps_ctx) }
    } else {
        (mps, ctx)
    }
}

/// The buffer, code register and bit counter after writing out a byte of `c` past
/// position `bp`: after `0xFF`, 7 bits; else 8, carrying into the last byte when bit 27
/// is set (and then 7 when that byte becomes `0xFF`).
pub open spec fn byte_out_next(buf: Seq<u8>, bp: int, c: u32) -> (Seq<u8>, u32, i32) {
    if buf[bp] == 0xff {
        (buf.push((c >> 20u32) as u8), c & 0xfffff, 7)
    } else if c & 0x8000000 == 0 {
        (buf.push((c >> 19u32) as u8), c & 0x7ffff, 8)
    } else if buf[bp] + 1 == 0xff {
        let c1 = c & 0x7ffffff;
        (buf.update(bp, 0xffu8).push((c1 >> 20u32) as u8), c1 & 0xfffff, 7)
    } else {
        (buf.update(bp, (buf[bp] + 1) as u8).push((c >> 19u32) as u8), c & 0x7ffff, 8)
    }
}

/// The buffer and the count of its bytes after terminating the code with interval
/// `[c, c + a)`, `ct` bits left and the last byte at `bp`: the low 16 bits of C set
/// (less 0x8000 when that leaves the interval), two bytes written out, and the last
/// one counted unless it is `0xFF`.
pub open spec fn flush_result(buf: Seq<u8>, bp: int, a: u32, c: u32, ct: i32) -> (Seq<u8>, int) {
    let c1 = c | 0xffffu32;
    let c2: u32 = if c1 >= c + a { (c1 - 0x8000) as u32 } else { c1 };
    let c3 = c2 << (ct as u32);
    let first = byte_out_next(buf, bp, c3);
    let c5 = first.1 << (first.2 as u32);
    let second = byte_out_next(first.0, bp + 1, c5);
    let b = second.0;
    let n = bp + 2;
    (b, if n < b.len() && b[n] != 0xff { n + 1 } else { n })
}

/// Room of the code register for `ct` bits left before the next byte: the interval
/// `[c, c + a)` stays below it.
pub open spec fn enc_room(ct: i32) -> int {
    if ct <= 0 {
        0x1000_0000
    } else if ct == 1 {
        0x800_0000
    } else if ct == 2 {
        0x400_0000
    } else if ct == 3 {
        0x200_0000
    } else if ct == 4 {
        0x100_0000
    } else if ct == 5 {
        0x80_0000
    } else if ct == 6 {
        0x40_0000
    } else if ct == 7 {
        0x20_0000
    } else if ct == 8 {
        0x10_0000
    } else if ct == 9 {
        0x8_0000
    } else if ct == 10 {
        0x4_0000
    } else if ct == 11 {
        0x2_0000
    } else {
        0x1_0000
    }
}

/// The MQ coder: encoder and decoder registers, output buffer, input and contexts.
pub struct MqCoder {
    /// The interval register A.
    pub a: u32,
    /// The code register C.
    pub c: u32,
    /// Bits left before the next byte out (encoder) or in (decoder).
    pub ct: i32,
    /// Encoder output; its first byte is a placeholder before the code bytes.
    pub buffer: Vec<u8>,
    /// Index of the last byte of `buffer` written.
    pub bp_idx: usize,
    /// Decoder input, followed by two `0xFF` bytes.
    pub source: Vec<u8>,
    /// Decoder read position in `source`.
    pub src_pos: usize,
    /// The context states.
    pub contexts: Vec<u8>,
    /// Number of symbols encoded.
    pub symbol_count: usize,
}

impl MqCoder {
    /// The encoder is ready: a normalized interval inside the register's room, the
    /// buffer ending at the byte being built, every context valid.
    pub open spec fn enc_wf(&self) -> bool {
        &&& contexts_valid(self.contexts@)
        &&& self.buffer@.len() == self.bp_idx + 1
        &&& 1 <= self.ct <= 12
        &&& 0x8000 <= self.a <= 0xFFFF
        &&& self.c + self.a <= enc_room(self.ct)
    }

    /// The decoder is ready: input ending in two `0xFF` bytes, a read position inside
    /// it, a normalized interval, every context valid.
    pub open spec fn dec_wf(&self) -> bool {
        &&& contexts_valid(self.contexts@)
        &&& self.source@.len() >= 2
        &&& self.source@[self.source@.len() - 1] == 0xFF
        &&& self.source@[self.source@.len() - 2] == 0xFF
        &&& self.src_pos < self.source@.len()
        &&& 0 <= self.ct <= 8
        &&& 0x8000 <= self.a <= 0xFFFF
    }

    /// A coder with 19 contexts in state 0 and cleared registers.
    pub fn new() -> (r: Self)
        ensures
            r.contexts@ == Seq::new(19, |i: int| 0u8),
            r.a == 0 && r.c == 0 && r.ct == 0 && r.bp_idx == 0 && r.src_pos == 0 && r.symbol_count == 0,
            r.buffer@.len() == 0 && r.source@.len() == 0,
    {
        let mut contexts: Vec<u8> = Vec::new();
        let mut i: usize = 0;
        while i < 19
            invariant
                i <= 19,
                contexts@ == Seq::new(i as nat, |k: int| 0u8),
            decreases 19 - i,
        {
            contexts.push(0);
            assert(contexts@ =~= Seq::new((i + 1) as nat, |k: int| 0u8));
            i = i + 1;
        }
        MqCoder {
            a: 0,
            c: 0,
            ct: 0,
            buffer: Vec::new(),
            bp_idx: 0,
            source: Vec::new(),
            src_pos: 0,
            contexts,
            symbol_count: 0,
        }
    }

    /// Makes `size` contexts in state 0.
    pub fn init_contexts(&mut self, size: usize)
        ensures
            final(self).contexts@ == Seq::new(size as nat, |i: int| 0u8),
            final(self).a == old(self).a && final(self).c == old(self).c && final(self).ct == old(self).ct,
            final(self).buffer@ == old(self).buffer@ && final(self).bp_idx == old(self).bp_idx,
            final(self).source@ == old(self).source@ && final(self).src_pos == old(self).src_pos,
            final(self).symbol_count == old(self).symbol_count,
    {
        let mut contexts: Vec<u8> = Vec::new();
        let mut i: usize = 0;
        while i < size
            invariant
                i <= size,
                contexts@ == Seq::new(i as nat, |k: int| 0u8),
            decreases size - i,
        {
            contexts.push(0);
            assert(contexts@ =~= Seq::new((i + 1) as nat, |k: int| 0u8));
            i = i + 1;
        }
        self.contexts = contexts;
    }

    /// Sets context `cx` to `state`, adding contexts in state 0 up to it if needed.
    pub fn set_context(&mut self, cx: usize, state: u8)
        requires
            cx < usize::MAX,
        ensures
            final(self).contexts@.len() == if cx < old(self).contexts@.len() {
                old(self).contexts@.len() as int
            } else {
                cx + 1
            },
            forall|i: int|
                0 <= i < final(self).contexts@.len() ==> #[trigger] final(self).contexts@[i] == if i == cx {
                    state
                } else if i < old(self).contexts@.len() {
                    old(self).contexts@[i]
                } else {
                    0u8
                },
            final(self).a == old(self).a && final(self).c == old(self).c && final(self).ct == old(self).ct,
            final(self).buffer@ == old(self).buffer@ && final(self).bp_idx == old(self).bp_idx,
            final(self).source@ == old(self).source@ && final(self).src_pos == old(self).src_pos,
            final(self).symbol_count == old(self).symbol_count,
    {
        while self.contexts.len() <= cx
            invariant
                cx < usize::MAX,
                old(self).contexts@.len() <= self.contexts@.len() <= if cx < old(self).contexts@.len() {
                    old(self).contexts@.len() as int
                } else {
                    cx + 1
                },
                forall|i: int|
                    0 <= i < self.contexts@.len() ==> #[trigger] self.contexts@[i] == if i < old(
                        self,
                    ).contexts@.len() {
                        old(self).contexts@[i]
                    } else {
                        0u8
                    },
                self.a == old(self).a && self.c == old(self).c && self.ct == old(self).ct,
                self.buffer@ == old(self).buffer@ && self.bp_idx == old(self).bp_idx,
                self.source@ == old(self).source@ && self.src_pos == old(self).src_pos,
                self.symbol_count == old(self).symbol_count,
            decreases cx + 1 - self.contexts@.len(),
        {
            self.contexts.push(0);
        }
        self.contexts.set(cx, state);
    }
}


proof fn lemma_context_parts(ctx: u8)
    requires
        context_valid(ctx),
    ensures
        (ctx >> 1u8) < 47,
        (ctx & 1) <= 1,
{
    assert(ctx < 94 ==> (ctx >> 1u8) < 47 && (ctx & 1) <= 1) by (bit_vector);
}

proof fn lemma_context_make(st: u8, mps: u8)
    requires
        st < 47,
        mps <= 1,
    ensures
        context_valid(((st << 1u8) | mps) as u8),
        mps ^ 1 <= 1,
{
    assert(st < 47 && mps <= 1 ==> ((st << 1u8) | mps) < 94 && mps ^ 1 <= 1) by (bit_vector);
}

impl MqCoder {
    /// Starts encoding: an empty output after the placeholder byte, A = 0x8000,
    /// C = 0, 12 bits to the first byte.
    pub fn init_encoder(&mut self)
        ensures
            final(self).buffer@ == seq![0u8],
            final(self).bp_idx == 0,
            final(self).a == 0x8000,
            final(self).c == 0,
            final(self).ct == 12,
            final(self).symbol_count == 0,
            final(self).contexts@ == old(self).contexts@,
            final(self).source@ == old(self).source@,
            final(self).src_pos == old(self).src_pos,
            contexts_valid(old(self).contexts@) ==> final(self).enc_wf(),
    {
        self.buffer.clear();
        self.buffer.push(0);
        self.bp_idx = 0;
        self.a = 0x8000;
        self.c = 0;
        self.ct = 12;
        self.symbol_count = 0;
        assert(self.buffer@ =~= seq![0u8]);
    }

    /// Writes out a byte of the code register, with bit stuffing after `0xFF` and
    /// carry propagation into the last byte.
    fn byte_out(&mut self)
        requires
            old(self).buffer@.len() == old(self).bp_idx + 1,
        ensures
            final(self).buffer@.len() == final(self).bp_idx + 1,
            final(self).bp_idx == old(self).bp_idx + 1,
            final(self).ct == 7 && final(self).c <= 0xfffff || final(self).ct == 8 && final(self).c <= 0x7ffff,
            final(self).a == old(self).a,
            final(self).contexts@ == old(self).contexts@,
            final(self).symbol_count == old(self).symbol_count,
            final(self).source@ == old(self).source@,
            final(self).src_pos == old(self).src_pos,
            (final(self).buffer@, final(self).c, final(self).ct) == byte_out_next(
                old(self).buffer@,
                old(self).bp_idx as int,
                old(self).c,
            ),
    {
        let c = self.c;
        proof {
            lemma_and_bounded_u32(c, 0xfffff);
            lemma_and_bounded_u32(c, 0x7ffff);
        }
        let _len = self.buffer.len();
        if self.buffer[self.bp_idx] == 0xff {
            self.bp_idx = self.bp_idx + 1;
            self.buffer.push((self.c >> 20u32) as u8);
            self.c = self.c & 0xfffff;
            self.ct = 7;
        } else if (self.c & 0x8000000) == 0 {
            self.bp_idx = self.bp_idx + 1;
            self.buffer.push((self.c >> 19u32) as u8);
            self.c = self.c & 0x7ffff;
            self.ct = 8;
        } else {
            let v = self.buffer[self.bp_idx] + 1;
            self.buffer.set(self.bp_idx, v);
            if v == 0xff {
                self.c = self.c & 0x7ffffff;
                let c2 = self.c;
                proof {
                    lemma_and_bounded_u32(c2, 0xfffff);
                }
                self.bp_idx = self.bp_idx + 1;
                self.buffer.push((self.c >> 20u32) as u8);
                self.c = self.c & 0xfffff;
                self.ct = 7;
            } else {
                self.bp_idx = self.bp_idx + 1;
                self.buffer.push((self.c >> 19u32) as u8);
                self.c = self.c & 0x7ffff;
                self.ct = 8;
            }
        }
    }

    /// Renormalizes after coding: doubles the interval (and code register) until it is
    /// at least 0x8000, writing out a byte each time the bit counter runs down.
    fn renorm_e(&mut self)
        requires
            old(self).buffer@.len() == old(self).bp_idx + 1,
            1 <= old(self).ct <= 12,
            0 < old(self).a < 0x8000,
            old(self).c + old(self).a <= enc_room(old(self).ct),
        ensures
            final(self).buffer@.len() == final(self).bp_idx + 1,
            1 <= final(self).ct <= 12,
            0x8000 <= final(self).a <= 0xFFFF,
            final(self).c + final(self).a <= enc_room(final(self).ct),
            final(self).bp_idx >= old(self).bp_idx,
            final(self).contexts@ == old(self).contexts@,
            final(self).symbol_count == old(self).symbol_count,
            final(self).source@ == old(self).source@,
            final(self).src_pos == old(self).src_pos,
    {
        loop
            invariant_except_break
                0 < self.a < 0x8000,
            invariant
                self.buffer@.len() == self.bp_idx + 1,
                1 <= self.ct <= 12,
                self.c + self.a <= enc_room(self.ct),
                self.bp_idx >= old(self).bp_idx,
                self.contexts@ == old(self).contexts@,
                self.symbol_count == old(self).symbol_count,
                self.source@ == old(self).source@,
                self.src_pos == old(self).src_pos,
            ensures
                self.buffer@.len() == self.bp_idx + 1,
                1 <= self.ct <= 12,
                0x8000 <= self.a <= 0xFFFF,
                self.c + self.a <= enc_room(self.ct),
                self.bp_idx >= old(self).bp_idx,
                self.contexts@ == old(self).contexts@,
                self.symbol_count == old(self).symbol_count,
                self.source@ == old(self).source@,
                self.src_pos == old(self).src_pos,
            decreases 0x8000 - self.a,
        {
            let a = self.a;
            let c = self.c;
            proof {
                if a < 0x8000 {
                    lemma_u32_double(a);
                }
                if c < 0x1000_0000 {
                    lemma_u32_double(c);
                }
            }
            self.a = self.a << 1u32;
            self.c = self.c << 1u32;
            self.ct = self.ct - 1;
            if self.ct == 0 {
                self.byte_out();
            }
            if self.a >= 0x8000 {
                break;
            }
        }
    }

    /// Encodes the binary decision `d` in context `cx`.
    pub fn encode(&mut self, d: u8, cx: usize)
        requires
            old(self).enc_wf(),
            cx < old(self).contexts@.len(),
        ensures
            final(self).enc_wf(),
            final(self).contexts@ == old(self).contexts@.update(
                cx as int,
                mq_encode_context(old(self).contexts@[cx as int], old(self).a, d),
            ),
            final(self).symbol_count == if old(self).symbol_count < usize::MAX {
                old(self).symbol_count + 1
            } else {
                0
            },
            final(self).bp_idx >= old(self).bp_idx,
            final(self).source@ == old(self).source@,
            final(self).src_pos == old(self).src_pos,
    {
        self.symbol_count = self.symbol_count.wrapping_add(1);
        let ctx = self.contexts[cx];
        proof {
            lemma_context_parts(ctx);
        }
        let idx = (ctx >> 1u8) as usize;
        let mps = ctx & 1;
        let st = mq_state(idx);
        let qe = st.qe as u32;
        self.a = self.a - qe;
        if d == mps {
            if (self.a & 0x8000) == 0 {
                let a = self.a;
                proof {
                    lemma_bit15(a);
                }
                if self.a < qe {
                    self.a = qe;
                } else {
                    self.c = self.c + qe;
                }
                proof {
                    lemma_context_make(st.nmps, mps);
                }
                self.contexts.set(cx, (st.nmps << 1u8) | mps);
                self.renorm_e();
            } else {
                let a = self.a;
                proof {
                    lemma_bit15(a);
                }
                self.c = self.c + qe;
            }
        } else {
            if self.a < qe {
                self.c = self.c + qe;
            } else {
                self.a = qe;
            }
            let new_mps = if st.switch != 0 { mps ^ 1 } else { mps };
            proof {
                lemma_context_make(st.nlps, mps);
                lemma_context_make(st.nlps, new_mps);
            }
            self.contexts.set(cx, (st.nlps << 1u8) | new_mps);
            self.renorm_e();
        }
    }

    /// Terminates the code: sets as many low bits of C as the interval allows, writes
    /// out the last bytes, and counts the last byte unless it is `0xFF`.
    pub fn flush(&mut self)
        requires
            old(self).enc_wf(),
        ensures
            final(self).bp_idx <= final(self).buffer@.len(),
            final(self).contexts@ == old(self).contexts@,
            (final(self).buffer@, final(self).bp_idx as int) == flush_result(
                old(self).buffer@,
                old(self).bp_idx as int,
                old(self).a,
                old(self).c,
                old(self).ct,
            ),
    {
        let temp_c = self.c + self.a;
        self.c = self.c | 0xffff;
        if self.c >= temp_c {
            self.c = self.c - 0x8000;
        }
        self.c = self.c << (self.ct as u32);
        self.byte_out();
        self.c = self.c << (self.ct as u32);
        self.byte_out();
        if self.bp_idx < self.buffer.len() && self.buffer[self.bp_idx] != 0xff {
            self.bp_idx = self.bp_idx + 1;
        }
    }

    /// The code bytes: the buffer after its placeholder, up to the last byte counted.
    pub fn get_buffer(&self) -> (r: &[u8])
        requires
            self.bp_idx <= self.buffer@.len(),
        ensures
            r@ == if self.bp_idx > 0 { self.buffer@.subrange(1, self.bp_idx as int) } else { Seq::<u8>::empty() },
    {
        if self.bp_idx > 0 {
            vstd::slice::slice_subrange(self.buffer.as_slice(), 1, self.bp_idx)
        } else {
            let empty: &[u8] = &[];
            assert(empty@ =~= Seq::<u8>::empty());
            empty
        }
    }
}

impl MqCoder {
    /// Starts decoding `data`: the input gets two `0xFF` bytes appended, C takes the
    /// first byte and the next, and A = 0x8000.
    pub fn init_decoder(&mut self, data: &[u8])
        requires
            data@.len() + 2 <= usize::MAX,
        ensures
            final(self).source@ == data@ + seq![0xFFu8, 0xFFu8],
            final(self).a == 0x8000,
            final(self).contexts@ == old(self).contexts@,
            final(self).buffer@ == old(self).buffer@,
            final(self).bp_idx == old(self).bp_idx,
            final(self).symbol_count == old(self).symbol_count,
            contexts_valid(old(self).contexts@) ==> final(self).dec_wf(),
    {
        let mut source: Vec<u8> = Vec::new();
        let mut i: usize = 0;
        while i < data.len()
            invariant
                i <= data@.len(),
                source@ == data@.take(i as int),
            decreases data@.len() - i,
        {
            source.push(data[i]);
            assert(source@ =~= data@.take(i + 1));
            i = i + 1;
        }
        source.push(0xff);
        source.push(0xff);
        assert(data@.take(data@.len() as int) =~= data@);
        assert(source@ =~= data@ + seq![0xFFu8, 0xFFu8]);
        self.source = source;
        self.src_pos = 0;
        self.a = 0x8000;
        if data.len() == 0 {
            self.c = 0xff0000;
        } else {
            self.c = (self.source[0] as u32) << 16u32;
        }
        self.byte_in();
        self.c = self.c << 7u32;
        self.ct = self.ct - 7;
    }

    /// Reads the next byte into C: after `0xFF`, a byte above `0x8F` is a marker and is
    /// not read (1-bits are fed instead), else it carries seven bits. The register is
    /// 32 bits wide; these additions wrap.
    fn byte_in(&mut self)
        requires
            old(self).source@.len() >= 2,
            old(self).source@[old(self).source@.len() - 1] == 0xFF,
            old(self).source@[old(self).source@.len() - 2] == 0xFF,
            old(self).src_pos < old(self).source@.len(),
        ensures
            final(self).src_pos < final(self).source@.len(),
            final(self).ct == 7 || final(self).ct == 8,
            final(self).source@ == old(self).source@,
            final(self).a == old(self).a,
            final(self).contexts@ == old(self).contexts@,
            final(self).buffer@ == old(self).buffer@,
            final(self).bp_idx == old(self).bp_idx,
            final(self).symbol_count == old(self).symbol_count,
    {
        if self.src_pos < self.source.len() {
            if self.source[self.src_pos] == 0xff {
                let next: u8 = if self.src_pos + 1 < self.source.len() {
                    self.source[self.src_pos + 1]
                } else {
                    0xff
                };
                if next > 0x8f {
                    self.c = self.c.wrapping_add(0xff00);
                    self.ct = 8;
                } else {
                    self.src_pos = self.src_pos + 1;
                    self.c = self.c.wrapping_add((self.source[self.src_pos] as u32) << 9u32);
                    self.ct = 7;
                }
            } else {
                self.src_pos = self.src_pos + 1;
                self.c = self.c.wrapping_add((self.source[self.src_pos] as u32) << 8u32);
                self.ct = 8;
            }
        } else {
            self.c = self.c.wrapping_add(0xff00);
            self.ct = 8;
        }
    }

    /// Renormalizes after decoding: doubles A and C until A is at least 0x8000, reading
    /// a byte each time the bit counter runs out.
    fn renorm_d(&mut self)
        requires
            old(self).source@.len() >= 2,
            old(self).source@[old(self).source@.len() - 1] == 0xFF,
            old(self).source@[old(self).source@.len() - 2] == 0xFF,
            old(self).src_pos < old(self).source@.len(),
            0 <= old(self).ct <= 8,
            0 < old(self).a < 0x8000,
        ensures
            final(self).src_pos < final(self).source@.len(),
            0 <= final(self).ct <= 8,
            0x8000 <= final(self).a <= 0xFFFF,
            final(self).source@ == old(self).source@,
            final(self).contexts@ == old(self).contexts@,
            final(self).buffer@ == old(self).buffer@,
            final(self).bp_idx == old(self).bp_idx,
            final(self).symbol_count == old(self).symbol_count,
    {
        loop
            invariant_except_break
                0 < self.a < 0x8000,
            invariant
                self.source@ == old(self).source@,
                self.source@.len() >= 2,
                self.source@[self.source@.len() - 1] == 0xFF,
                self.source@[self.source@.len() - 2] == 0xFF,
                self.src_pos < self.source@.len(),
                0 <= self.ct <= 8,
                self.contexts@ == old(self).contexts@,
                self.buffer@ == old(self).buffer@,
                self.bp_idx == old(self).bp_idx,
                self.symbol_count == old(self).symbol_count,
            ensures
                0x8000 <= self.a <= 0xFFFF,
            decreases 0x8000 - self.a,
        {
            if self.ct == 0 {
                self.byte_in();
            }
            let a = self.a;
            proof {
                if a < 0x8000 {
                    lemma_u32_double(a);
                }
            }
            self.a = self.a << 1u32;
            self.c = self.c << 1u32;
            self.ct = self.ct - 1;
            if self.a >= 0x8000 {
                break;
            }
        }
    }

    /// Decodes a binary decision in context `cx`.
    pub fn decode_bit(&mut self, cx: usize) -> (r: u8)
        requires
            old(self).dec_wf(),
            cx < old(self).contexts@.len(),
        ensures
            final(self).dec_wf(),
            (r, final(self).contexts@[cx as int]) == mq_decode_step(
                old(self).contexts@[cx as int],
                old(self).a,
                old(self).c,
            ),
            final(self).contexts@ == old(self).contexts@.update(cx as int, final(self).contexts@[cx as int]),
            r <= 1,
            final(self).source@ == old(self).source@,
            final(self).buffer@ == old(self).buffer@,
            final(self).bp_idx == old(self).bp_idx,
            final(self).symbol_count == old(self).symbol_count,
    {
        let ctx = self.contexts[cx];
        proof {
            lemma_context_parts(ctx);
        }
        let idx = (ctx >> 1u8) as usize;
        let mps = ctx & 1;
        let st = mq_state(idx);
        let qe = st.qe as u32;
        let new_lps_mps = if st.switch != 0 { mps ^ 1 } else { mps };
        proof {
            lemma_context_make(st.nmps, mps);
            lemma_context_make(st.nlps, mps);
            lemma_context_make(st.nlps, new_lps_mps);
        }
        self.a = self.a - qe;
        if (self.c >> 16u32) < qe {
            let d = if self.a < qe {
                self.a = qe;
                self.contexts.set(cx, (st.nmps << 1u8) | mps);
                mps
            } else {
                self.a = qe;
                self.contexts.set(cx, (st.nlps << 1u8) | new_lps_mps);
                mps ^ 1
            };
            self.renorm_d();
            d
        } else {
            let c = self.c;
            assert((c >> 16u32) >= qe ==> c >= qe << 16u32) by (bit_vector)
                requires
                    qe <= 0x5601,
            ;
            self.c = self.c - (qe << 16u32);
            if self.a < 0x8000 {
                let d = if self.a < qe {
                    self.contexts.set(cx, (st.nlps << 1u8) | new_lps_mps);
                    mps ^ 1
                } else {
                    self.contexts.set(cx, (st.nmps << 1u8) | mps);
                    mps
                };
                self.renorm_d();
                d
            } else {
                mps
            }
        }
    }
}
} // verus!
