//! Packet headers (ISO/IEC 15444-1 B.10): code-block inclusion, zero bit-planes,
//! number of coding passes and data lengths, coded with tag trees and raw bits.
use crate::jpeg2000::bit_io::{
    bit_step, bits_read, read_all, write_all, write_step, write_steps, BitIoError, BitReadState, BitWriteState,
    J2kBitReader, J2kBitWriter,
};
use vstd::arithmetic::power2::pow2;
use crate::jpeg2000::tag_tree::{tree_size, TagTree};
use vstd::prelude::*;
use vstd::std_specs::bits::u32_leading_zeros;

verus! {

/// The tag trees of one subband of a precinct.
pub struct SubbandState {
    /// Code-block inclusion (first layer of each block).
    pub inclusion_tree: TagTree,
    /// Missing most significant bit-planes of each block.
    pub zero_bp_tree: TagTree,
    /// Length indicator state of each block.
    pub lblock_tree: TagTree,
}

/// `t` is `prior` cleared: same grid and shape, every node fresh.
pub open spec fn tree_cleared(t: TagTree, prior: TagTree) -> bool {
    &&& t.wf()
    &&& t.leaf_width == prior.leaf_width
    &&& t.leaf_height == prior.leaf_height
    &&& t.nodes@.len() == prior.nodes@.len()
    &&& forall|i: int|
        0 <= i < t.nodes@.len() ==> (#[trigger] t.nodes@[i]).is_fresh() && t.nodes@[i].parent_index
            == prior.nodes@[i].parent_index
}

/// The three trees of `s` are those of `prior`, cleared.
pub open spec fn subband_cleared(s: SubbandState, prior: SubbandState) -> bool {
    &&& tree_cleared(s.inclusion_tree, prior.inclusion_tree)
    &&& tree_cleared(s.zero_bp_tree, prior.zero_bp_tree)
    &&& tree_cleared(s.lblock_tree, prior.lblock_tree)
}

/// A grid of `w` by `h` code-blocks can have its tag trees.
pub open spec fn grid_fits(w: usize, h: usize) -> bool {
    tree_size(w as nat, h as nat) <= usize::MAX && w < usize::MAX && h < usize::MAX
}

impl SubbandState {
    /// Its three trees are well formed and cover the same grid.
    pub open spec fn wf(&self) -> bool {
        &&& self.inclusion_tree.wf()
        &&& self.zero_bp_tree.wf()
        &&& self.lblock_tree.wf()
    }

    /// The trees of a `w` by `h` grid of code-blocks, with no value set.
    pub fn new(w: usize, h: usize) -> (r: Self)
        requires
            grid_fits(w, h),
        ensures
            r.wf(),
            r.inclusion_tree.leaf_width == w && r.inclusion_tree.leaf_height == h,
            r.zero_bp_tree.leaf_width == w && r.zero_bp_tree.leaf_height == h,
            r.lblock_tree.leaf_width == w && r.lblock_tree.leaf_height == h,
    {
        Self { inclusion_tree: TagTree::new(w, h), zero_bp_tree: TagTree::new(w, h), lblock_tree: TagTree::new(w, h) }
    }

    /// Clears the three trees.
    pub fn reset(&mut self)
        requires
            old(self).wf(),
        ensures
            final(self).wf(),
            subband_cleared(*final(self), *old(self)),
    {
        self.inclusion_tree.reset();
        self.zero_bp_tree.reset();
        self.lblock_tree.reset();
    }
}

/// The coding state of a precinct while its packets are read or written.
pub struct PrecinctState {
    /// The tag trees of each subband (one at resolution 0, else three).
    pub subbands: Vec<SubbandState>,
}

impl PrecinctState {
    /// Every subband's trees are well formed.
    pub open spec fn wf(&self) -> bool {
        forall|s: int| 0 <= s < self.subbands@.len() ==> (#[trigger] self.subbands@[s]).wf()
    }

    /// A precinct with no subband state yet; each subband's trees are made when its
    /// first packet is read or written.
    pub fn new(_w: usize, _h: usize) -> (r: Self)
        ensures
            r.wf(),
            r.subbands@.len() == 0,
    {
        Self { subbands: Vec::new() }
    }

    /// Clears every subband's trees.
    pub fn reset(&mut self)
        requires
            old(self).wf(),
        ensures
            final(self).wf(),
            final(self).subbands@.len() == old(self).subbands@.len(),
            forall|s: int|
                0 <= s < final(self).subbands@.len() ==> subband_cleared(
                    #[trigger] final(self).subbands@[s],
                    old(self).subbands@[s],
                ),
    {
        let n = self.subbands.len();
        let mut i: usize = 0;
        while i < n
            invariant
                self.wf(),
                n == self.subbands@.len(),
                n == old(self).subbands@.len(),
                i <= n,
                forall|s: int| i <= s < n ==> #[trigger] self.subbands@[s] == old(self).subbands@[s],
                forall|s: int| 0 <= s < i ==> subband_cleared(#[trigger] self.subbands@[s], old(self).subbands@[s]),
            decreases n - i,
        {
            let mut sb = self.subbands.remove(i);
            sb.reset();
            self.subbands.insert(i, sb);
            i = i + 1;
        }
    }
}

/// A decoded or to-be-written packet header.
pub struct PacketHeader {
    /// Packet sequence number.
    pub packet_seq_num: u32,
    /// Whether the packet is empty (no code-block included).
    pub empty: bool,
    /// The quality layer.
    pub layer_index: u32,
    /// The code-blocks the packet includes.
    pub included_cblks: Vec<CodeBlockInfo>,
}

/// What a packet header says of one code-block.
#[derive(Debug, Clone, Copy)]
pub struct CodeBlockInfo {
    /// Column in the subband's grid of code-blocks.
    pub x: usize,
    /// Row in the subband's grid of code-blocks.
    pub y: usize,
    /// Subband within the precinct.
    pub subband_index: u8,
    /// Whether the block is included.
    pub included: bool,
    /// Number of coding passes.
    pub num_passes: u8,
    /// Length of its data in the packet body.
    pub data_len: u32,
    /// Missing most significant bit-planes.
    pub zero_bp: u8,
    /// The length indicator's base number of bits.
    pub numlenbits: u8,
}

/// The number of coding passes coded at reader state `s` (Table B.4): `0`, `10`,
/// `11` and two bits below 3, `1111` and five bits below 31, or `1111 11111` and seven bits.
pub open spec fn passes_at(d: Seq<u8>, s: BitReadState) -> Option<u8> {
    match bit_step(d, s) {
        None => None,
        Some((s1, b1)) => if b1 == 0 {
            Some(1u8)
        } else {
            match bit_step(d, s1) {
                None => None,
                Some((s2, b2)) => if b2 == 0 {
                    Some(2u8)
                } else {
                    let (s3, v3) = bits_read(d, s2, 2, 0);
                    match v3 {
                        None => None,
                        Some(v) => if v < 3 {
                            Some((3 + v) as u8)
                        } else {
                            let (s4, v4) = bits_read(d, s3, 5, 0);
                            match v4 {
                                None => None,
                                Some(w) => if w < 31 {
                                    Some((6 + w) as u8)
                                } else {
                                    match bits_read(d, s4, 7, 0).1 {
                                        None => None,
                                        Some(z) => Some((37 + z) as u8),
                                    }
                                },
                            }
                        },
                    }
                },
            }
        },
    }
}

/// The writer state after coding `passes` coding passes (Table B.4).
pub open spec fn passes_written(s: BitWriteState, passes: u8) -> BitWriteState {
    if passes == 1 {
        write_step(s, 0)
    } else if passes == 2 {
        write_step(write_step(s, 1), 0)
    } else if 3 <= passes <= 5 {
        write_steps(write_step(write_step(s, 1), 1), (passes - 3) as u32, 2)
    } else if 6 <= passes <= 36 {
        write_steps(write_steps(write_step(write_step(s, 1), 1), 3, 2), (passes - 6) as u32, 5)
    } else {
        write_steps(
            write_steps(write_steps(write_step(write_step(s, 1), 1), 3, 2), 31, 5),
            (passes - 37) as u32,
            7,
        )
    }
}

/// The writer state after `n` one bits and a zero (a comma code).
pub open spec fn comma_written(s: BitWriteState, n: nat) -> BitWriteState
    decreases n,
{
    if n == 0 {
        write_step(s, 0)
    } else {
        comma_written(write_step(s, 1), (n - 1) as nat)
    }
}

/// The reader state and count after reading ones up to a zero, from reader state `s`,
/// having counted `n` so far; `None` if the data runs out. `fuel` bounds the count.
pub open spec fn comma_at(d: Seq<u8>, s: BitReadState, n: nat, fuel: nat) -> Option<(BitReadState, nat)>
    decreases fuel,
{
    match bit_step(d, s) {
        None => None,
        Some((s1, b)) => if b == 0 {
            Some((s1, n))
        } else if fuel == 0 {
            None
        } else {
            comma_at(d, s1, n + 1, (fuel - 1) as nat)
        },
    }
}

/// The longest comma code read: longer ones cannot give a length of at most 255 bits.
pub const MAX_COMMA_CODE: u32 = 0x1000_0000;

impl PacketHeader {
    /// Reads the number of coding passes (Table B.4).
    fn read_coding_passes(reader: &mut J2kBitReader<'_, '_>) -> (r: Result<u8, BitIoError>)
        requires
            old(reader).wf(),
        ensures
            final(reader).wf(),
            final(reader).reader.same_but_pos(old(reader).reader),
            match passes_at(old(reader).data(), old(reader).state()) {
                Some(n) => r == Ok::<u8, BitIoError>(n),
                None => r is Err,
            },
            r matches Ok(n) ==> 1 <= n <= 164,
    {
        let ghost d = reader.data();
        let b1 = reader.read_bit()?;
        if b1 == 0 {
            return Ok(1);
        }
        let b2 = reader.read_bit()?;
        if b2 == 0 {
            return Ok(2);
        }
        let ghost s2 = reader.state();
        let bits = reader.read_bits(2)?;
        proof {
            lemma_bits_read_bound(d, s2, 2);
            vstd::arithmetic::power2::lemma2_to64();
        }
        if bits < 3 {
            return Ok((3 + bits) as u8);
        }
        let ghost s3 = reader.state();
        let bits = reader.read_bits(5)?;
        proof {
            lemma_bits_read_bound(d, s3, 5);
            vstd::arithmetic::power2::lemma2_to64();
        }
        if bits < 31 {
            return Ok((6 + bits) as u8);
        }
        let ghost s4 = reader.state();
        let bits2 = reader.read_bits(7)?;
        proof {
            lemma_bits_read_bound(d, s4, 7);
            vstd::arithmetic::power2::lemma2_to64();
        }
        Ok((37 + bits2) as u8)
    }

    /// Writes the number of coding passes (Table B.4).
    fn write_coding_passes(writer: &mut J2kBitWriter, passes: u8)
        requires
            old(writer).wf(),
            passes != 0,
        ensures
            final(writer).wf(),
            final(writer).state() == passes_written(old(writer).state(), passes),
    {
        if passes == 1 {
            writer.write_bit(0);
        } else if passes == 2 {
            writer.write_bit(1);
            writer.write_bit(0);
        } else if 3 <= passes && passes <= 5 {
            writer.write_bit(1);
            writer.write_bit(1);
            writer.write_bits((passes - 3) as u32, 2);
        } else if 6 <= passes && passes <= 36 {
            writer.write_bit(1);
            writer.write_bit(1);
            writer.write_bits(3, 2);
            writer.write_bits((passes - 6) as u32, 5);
        } else {
            writer.write_bit(1);
            writer.write_bit(1);
            writer.write_bits(3, 2);
            writer.write_bits(31, 5);
            writer.write_bits((passes - 37) as u32, 7);
        }
    }

    /// Writes a comma code: `n` ones and a zero.
    fn write_comma_code(writer: &mut J2kBitWriter, n: i32)
        requires
            old(writer).wf(),
        ensures
            final(writer).wf(),
            final(writer).state() == comma_written(old(writer).state(), if n > 0 { n as nat } else { 0 }),
    {
        let mut k: i32 = 0;
        while k < n
            invariant
                writer.wf(),
                0 <= k,
                n > 0 ==> k <= n,
                n <= 0 ==> k == 0,
                comma_written(writer.state(), if n > 0 { (n - k) as nat } else { 0 }) == comma_written(
                    old(writer).state(),
                    if n > 0 { n as nat } else { 0 },
                ),
            decreases n - k,
        {
            writer.write_bit(1);
            k = k + 1;
        }
        writer.write_bit(0);
    }

    /// Reads a comma code (ones up to a zero) and returns the number of ones; a code of
    /// `MAX_COMMA_CODE` ones or more is an error.
    fn read_comma_code(reader: &mut J2kBitReader<'_, '_>) -> (r: Result<u32, BitIoError>)
        requires
            old(reader).wf(),
        ensures
            final(reader).wf(),
            final(reader).reader.same_but_pos(old(reader).reader),
            match comma_at(old(reader).data(), old(reader).state(), 0, (MAX_COMMA_CODE - 1) as nat) {
                Some((s, n)) => r == Ok::<u32, BitIoError>(n as u32) && final(reader).state() == s,
                None => r is Err,
            },
            r matches Ok(n) ==> n < MAX_COMMA_CODE,
    {
        let mut count: u32 = 0;
        loop
            invariant_except_break
                comma_at(reader.data(), reader.state(), count as nat, (MAX_COMMA_CODE - 1 - count) as nat)
                    == comma_at(old(reader).data(), old(reader).state(), 0, (MAX_COMMA_CODE - 1) as nat),
            invariant
                reader.wf(),
                reader.reader.same_but_pos(old(reader).reader),
                count < MAX_COMMA_CODE,
            ensures
                comma_at(old(reader).data(), old(reader).state(), 0, (MAX_COMMA_CODE - 1) as nat) == Some(
                    (reader.state(), count as nat),
                ),
            decreases MAX_COMMA_CODE - count,
        {
            let bit = reader.read_bit()?;
            if bit == 0 {
                break;
            }
            if count == MAX_COMMA_CODE - 1 {
                return Err(BitIoError);
            }
            count = count + 1;
        }
        Ok(count)
    }
}

proof fn lemma_bit_step_bit(d: Seq<u8>, s: BitReadState)
    ensures
        bit_step(d, s) matches Some((s2, b)) ==> b <= 1,
{
    let (pos, buf, cnt, last) = s;
    if cnt == 0 {
        if 0 <= pos < d.len() {
            let x = d[pos];
            let c: u8 = if last == 0xFF { 7 } else { 8 };
            let sh = (c - 1) as u8;
            assert((x >> sh) & 1 <= 1) by (bit_vector);
        }
    } else {
        let sh = (cnt - 1) as u8;
        assert((buf >> sh) & 1 <= 1) by (bit_vector);
    }
}

proof fn lemma_bits_read_bound_acc(d: Seq<u8>, s: BitReadState, n: nat, acc: u32, k: nat)
    requires
        acc < vstd::arithmetic::power2::pow2(k),
        k + n <= 31,
    ensures
        bits_read(d, s, n, acc).1 matches Some(v) ==> v < vstd::arithmetic::power2::pow2(k + n),
    decreases n,
{
    if n > 0 {
        match bit_step(d, s) {
            Some((s2, b)) => {
                lemma_bit_step_bit(d, s);
                vstd::arithmetic::power2::lemma2_to64();
                if k < 31 {
                    vstd::arithmetic::power2::lemma_pow2_strictly_increases(k, 31);
                }
                if acc < 0x8000_0000 {
                    lemma_push_bit(acc, b);
                }
                vstd::arithmetic::power2::lemma_pow2_unfold(k + 1);
                lemma_bits_read_bound_acc(d, s2, (n - 1) as nat, (acc << 1u32) | (b as u32), k + 1);
            },
            None => {},
        }
    }
}

/// Shifting a bit in from the right doubles the accumulator and adds the bit.
proof fn lemma_push_bit(acc: u32, b: u8)
    requires
        acc < 0x8000_0000,
    ensures
        b <= 1 ==> (acc << 1u32) | (b as u32) == 2 * acc + b,
{
    assert(acc < 0x8000_0000 && b <= 1 ==> (acc << 1u32) | (b as u32) == 2 * acc + b) by (bit_vector);
}

/// The `c` low bits of `v`, most significant first.
pub open spec fn low_bits(v: nat, c: nat) -> Seq<u8> {
    Seq::new(c, |i: int| ((v / pow2((c - 1 - i) as nat)) % 2) as u8)
}

/// The number whose bits, most significant first, are `x`, after `acc`.
pub open spec fn bits_num(acc: int, x: Seq<u8>) -> int
    decreases x.len(),
{
    if x.len() == 0 {
        acc
    } else {
        bits_num(2 * acc + x[0], x.drop_first())
    }
}

/// The reader state after `k` bits from `r`.
pub open spec fn read_state(d: Seq<u8>, r: BitReadState, k: nat) -> BitReadState
    decreases k,
{
    if k == 0 {
        r
    } else {
        match bit_step(d, r) {
            Some((r2, _)) => read_state(d, r2, (k - 1) as nat),
            None => r,
        }
    }
}

/// The codeword of `n` coding passes (Table B.4 of ISO/IEC 15444-1): `0` for one pass,
/// `10` for two, `11` and `n - 3` in 2 bits up to 5, `1111` and `n - 6` in 5 bits up to
/// 36, `1111 11111` and `n - 37` in 7 bits up to 164.
pub open spec fn pass_codeword(n: nat) -> Seq<u8> {
    if n == 1 {
        seq![0u8]
    } else if n == 2 {
        seq![1u8, 0u8]
    } else if n <= 5 {
        seq![1u8, 1u8] + low_bits((n - 3) as nat, 2)
    } else if n <= 36 {
        seq![1u8, 1u8, 1u8, 1u8] + low_bits((n - 6) as nat, 5)
    } else {
        seq![1u8, 1u8, 1u8, 1u8, 1u8, 1u8, 1u8, 1u8, 1u8] + low_bits((n - 37) as nat, 7)
    }
}

proof fn lemma_write_steps_bits(s: BitWriteState, v: u32, c: nat)
    requires
        c <= 32,
    ensures
        write_steps(s, v, c) == write_all(s, low_bits(v as nat, c)),
    decreases c,
{
    if c > 0 {
        let k = (c - 1) as u32;
        vstd::bits::lemma_u32_shr_is_div(v, k);
        vstd::bits::lemma_u32_low_bits_mask_is_mod(v >> k, 1);
        vstd::bits::lemma_low_bits_mask_values();
        vstd::arithmetic::power2::lemma2_to64();
        assert(((v >> k) & 1) as u8 == low_bits(v as nat, c)[0]);
        assert(low_bits(v as nat, c).drop_first() =~= low_bits(v as nat, (c - 1) as nat));
        lemma_write_steps_bits(write_step(s, ((v >> k) & 1) as u8), v, (c - 1) as nat);
    } else {
        assert(low_bits(v as nat, 0) =~= Seq::<u8>::empty());
    }
}

proof fn lemma_write_all_append(s: BitWriteState, a: Seq<u8>, b: Seq<u8>)
    ensures
        write_all(s, a + b) == write_all(write_all(s, a), b),
    decreases a.len(),
{
    if a.len() > 0 {
        assert((a + b).drop_first() =~= a.drop_first() + b);
        assert((a + b)[0] == a[0]);
        lemma_write_all_append(write_step(s, a[0]), a.drop_first(), b);
    } else {
        assert(a + b =~= b);
    }
}

proof fn lemma_low_bits_small()
    ensures
        low_bits(3, 2) == seq![1u8, 1u8],
        low_bits(31, 5) == seq![1u8, 1u8, 1u8, 1u8, 1u8],
{
    vstd::arithmetic::power2::lemma2_to64();
    assert(pow2(0) == 1 && pow2(1) == 2 && pow2(2) == 4 && pow2(3) == 8 && pow2(4) == 16);
    assert(low_bits(3, 2)[0] == ((3nat / pow2(1)) % 2) as u8);
    assert(low_bits(3, 2)[1] == ((3nat / pow2(0)) % 2) as u8);
    assert(low_bits(31, 5)[0] == ((31nat / pow2(4)) % 2) as u8);
    assert(low_bits(31, 5)[1] == ((31nat / pow2(3)) % 2) as u8);
    assert(low_bits(31, 5)[2] == ((31nat / pow2(2)) % 2) as u8);
    assert(low_bits(31, 5)[3] == ((31nat / pow2(1)) % 2) as u8);
    assert(low_bits(31, 5)[4] == ((31nat / pow2(0)) % 2) as u8);
    assert(low_bits(3, 2) =~= seq![1u8, 1u8]);
    assert(low_bits(31, 5) =~= seq![1u8, 1u8, 1u8, 1u8, 1u8]);
}

/// Writing `n` coding passes (`1 <= n <= 164`) writes exactly the bits of the Table B.4
/// codeword of `n`.
pub proof fn lemma_passes_written_codeword(s: BitWriteState, n: u8)
    requires
        1 <= n <= 164,
    ensures
        passes_written(s, n) == write_all(s, pass_codeword(n as nat)),
{
    reveal_with_fuel(write_all, 3);
    lemma_low_bits_small();
    let w11 = write_step(write_step(s, 1), 1);
    assert(write_all(s, seq![1u8, 1u8]) == w11) by {
        assert(seq![1u8, 1u8].drop_first() =~= seq![1u8]);
        assert(seq![1u8].drop_first() =~= Seq::<u8>::empty());
    }
    if n == 1 {
        assert(seq![0u8].drop_first() =~= Seq::<u8>::empty());
    } else if n == 2 {
        assert(seq![1u8, 0u8].drop_first() =~= seq![0u8]);
        assert(seq![0u8].drop_first() =~= Seq::<u8>::empty());
    } else if n <= 5 {
        lemma_write_steps_bits(w11, (n - 3) as u32, 2);
        lemma_write_all_append(s, seq![1u8, 1u8], low_bits((n - 3) as nat, 2));
    } else if n <= 36 {
        lemma_write_steps_bits(w11, 3, 2);
        let w4 = write_steps(w11, 3, 2);
        lemma_write_steps_bits(w4, (n - 6) as u32, 5);
        lemma_write_all_append(s, seq![1u8, 1u8], seq![1u8, 1u8]);
        assert(seq![1u8, 1u8] + seq![1u8, 1u8] =~= seq![1u8, 1u8, 1u8, 1u8]);
        lemma_write_all_append(s, seq![1u8, 1u8, 1u8, 1u8], low_bits((n - 6) as nat, 5));
    } else {
        lemma_write_steps_bits(w11, 3, 2);
        let w4 = write_steps(w11, 3, 2);
        lemma_write_steps_bits(w4, 31, 5);
        let w9 = write_steps(w4, 31, 5);
        lemma_write_steps_bits(w9, (n - 37) as u32, 7);
        let ones4 = seq![1u8, 1u8, 1u8, 1u8];
        let ones5 = seq![1u8, 1u8, 1u8, 1u8, 1u8];
        lemma_write_all_append(s, seq![1u8, 1u8], seq![1u8, 1u8]);
        assert(seq![1u8, 1u8] + seq![1u8, 1u8] =~= ones4);
        lemma_write_all_append(s, ones4, ones5);
        let ones9 = seq![1u8, 1u8, 1u8, 1u8, 1u8, 1u8, 1u8, 1u8, 1u8];
        assert(ones4 + ones5 =~= ones9);
        lemma_write_all_append(s, ones9, low_bits((n - 37) as nat, 7));
    }
}

proof fn lemma_read_all_len(d: Seq<u8>, r: BitReadState, n: nat, z: Seq<u8>)
    requires
        read_all(d, r, n) == Some(z),
    ensures
        z.len() == n,
        forall|i: int| 0 <= i < z.len() ==> #[trigger] z[i] <= 1,
    decreases n,
{
    if n > 0 {
        lemma_bit_step_bit(d, r);
        let (r2, b) = bit_step(d, r)->Some_0;
        let t = read_all(d, r2, (n - 1) as nat)->Some_0;
        lemma_read_all_len(d, r2, (n - 1) as nat, t);
        assert(z == seq![b] + t);
    } else {
        assert(z =~= Seq::<u8>::empty());
    }
}

/// The first bit of what `read_all` reads, and the rest read after it.
proof fn lemma_read_first(d: Seq<u8>, r: BitReadState, n: nat, z: Seq<u8>)
    requires
        n >= 1,
        read_all(d, r, n) == Some(z),
    ensures
        bit_step(d, r) is Some,
        bit_step(d, r)->Some_0.1 == z[0],
        read_all(d, bit_step(d, r)->Some_0.0, (n - 1) as nat) == Some(z.drop_first()),
        read_state(d, r, 1) == bit_step(d, r)->Some_0.0,
{
    reveal_with_fuel(read_state, 2);
    let (r2, b) = bit_step(d, r)->Some_0;
    let t = read_all(d, r2, (n - 1) as nat)->Some_0;
    assert(z == seq![b] + t);
    assert(z.drop_first() =~= t);
}

proof fn lemma_read_all_split(d: Seq<u8>, r: BitReadState, k: nat, m: nat, z: Seq<u8>)
    requires
        read_all(d, r, k + m) == Some(z),
    ensures
        z.len() == k + m,
        read_all(d, r, k) == Some(z.take(k as int)),
        read_all(d, read_state(d, r, k), m) == Some(z.skip(k as int)),
    decreases k,
{
    lemma_read_all_len(d, r, k + m, z);
    if k == 0 {
        assert(z.take(0) =~= Seq::<u8>::empty());
        assert(z.skip(0) =~= z);
    } else {
        lemma_read_first(d, r, k + m, z);
        let (r2, b) = bit_step(d, r)->Some_0;
        let t = z.drop_first();
        lemma_read_all_split(d, r2, (k - 1) as nat, m, t);
        assert(z.take(k as int) =~= seq![b] + t.take(k - 1));
        assert(z.skip(k as int) =~= t.skip(k - 1));
    }
}

proof fn lemma_bits_read_value(d: Seq<u8>, r: BitReadState, k: nat, acc: u32, x: Seq<u8>)
    requires
        read_all(d, r, k) == Some(x),
        k <= 24,
        acc < pow2((24 - k) as nat),
    ensures
        0 <= bits_num(acc as int, x) < pow2(24),
        bits_read(d, r, k, acc) == (read_state(d, r, k), Some(bits_num(acc as int, x) as u32)),
    decreases k,
{
    vstd::arithmetic::power2::lemma2_to64();
    if k == 0 {
        assert(x =~= Seq::<u8>::empty());
    } else {
        lemma_read_first(d, r, k, x);
        lemma_bit_step_bit(d, r);
        let (r2, b) = bit_step(d, r)->Some_0;
        vstd::arithmetic::power2::lemma_pow2_strictly_increases((24 - k) as nat, 24);
        lemma_push_bit(acc, b);
        vstd::arithmetic::power2::lemma_pow2_unfold((25 - k) as nat);
        let acc2 = (acc << 1u32) | (b as u32);
        lemma_bits_read_value(d, r2, (k - 1) as nat, acc2, x.drop_first());
    }
}

proof fn lemma_bits_num_push(acc: int, x: Seq<u8>, b: u8)
    ensures
        bits_num(acc, x.push(b)) == 2 * bits_num(acc, x) + b,
    decreases x.len(),
{
    reveal_with_fuel(bits_num, 2);
    if x.len() == 0 {
        assert(seq![b].drop_first() =~= Seq::<u8>::empty());
        assert(x.push(b) =~= seq![b]);
    } else {
        assert(x.push(b)[0] == x[0]);
        assert(x.push(b).drop_first() =~= x.drop_first().push(b));
        lemma_bits_num_push(2 * acc + x[0], x.drop_first(), b);
    }
}

proof fn lemma_bits_num_low_bits(v: nat, c: nat)
    requires
        v < pow2(c),
    ensures
        bits_num(0, low_bits(v, c)) == v,
    decreases c,
{
    if c == 0 {
        vstd::arithmetic::power2::lemma2_to64();
        assert(low_bits(v, 0) =~= Seq::<u8>::empty());
    } else {
        vstd::arithmetic::power2::lemma_pow2_unfold(c);
        assert((v / 2) < pow2((c - 1) as nat));
        assert forall|i: int| 0 <= i < c - 1 implies #[trigger] low_bits(v, c)[i] == low_bits(v / 2, (c - 1) as nat)[i] by {
            let j = (c - 2 - i) as nat;
            vstd::arithmetic::power2::lemma_pow2_unfold(j + 1);
            vstd::arithmetic::power2::lemma_pow2_pos(j);
            vstd::arithmetic::div_mod::lemma_div_denominator(v as int, 2, pow2(j) as int);
        }
        vstd::arithmetic::power2::lemma2_to64();
        assert(pow2(0) == 1);
        assert(v / 1 == v);
        assert(low_bits(v, c)[c - 1] == ((v / pow2(0)) % 2) as u8);
        assert(low_bits(v, c)[c - 1] == (v % 2) as u8);
        assert(low_bits(v, c) =~= low_bits(v / 2, (c - 1) as nat).push((v % 2) as u8));
        lemma_bits_num_push(0, low_bits(v / 2, (c - 1) as nat), (v % 2) as u8);
        lemma_bits_num_low_bits(v / 2, (c - 1) as nat);
    }
}

/// Reading Table B.4: wherever the bits ahead of the reader are the codeword of `n`
/// coding passes (`1 <= n <= 164`), the number of passes read is `n`.
pub proof fn lemma_passes_read_codeword(d: Seq<u8>, r: BitReadState, n: u8)
    requires
        1 <= n <= 164,
        read_all(d, r, pass_codeword(n as nat).len()) == Some(pass_codeword(n as nat)),
    ensures
        passes_at(d, r) == Some(n),
{
    vstd::arithmetic::power2::lemma2_to64();
    reveal_with_fuel(bits_num, 6);
    let cw = pass_codeword(n as nat);
    let l = cw.len();
    lemma_read_first(d, r, l, cw);
    let (s1, b1) = bit_step(d, r)->Some_0;
    if n == 1 {
    } else {
        let c1 = cw.drop_first();
        lemma_read_first(d, s1, (l - 1) as nat, c1);
        let (s2, b2) = bit_step(d, s1)->Some_0;
        let c2 = c1.drop_first();
        if n == 2 {
        } else if n <= 5 {
            let lb = low_bits((n - 3) as nat, 2);
            assert(c2 =~= lb);
            lemma_bits_read_value(d, s2, 2, 0, lb);
            lemma_bits_num_low_bits((n - 3) as nat, 2);
        } else if n <= 36 {
            let lb = low_bits((n - 6) as nat, 5);
            assert(c2 =~= seq![1u8, 1u8] + lb);
            lemma_read_all_split(d, s2, 2, 5, c2);
            assert(c2.take(2) =~= seq![1u8, 1u8]);
            assert(c2.skip(2) =~= lb);
            lemma_bits_read_value(d, s2, 2, 0, seq![1u8, 1u8]);
            let s3 = read_state(d, s2, 2);
            lemma_bits_read_value(d, s3, 5, 0, lb);
            lemma_bits_num_low_bits((n - 6) as nat, 5);
        } else {
            let lb = low_bits((n - 37) as nat, 7);
            let ones5 = seq![1u8, 1u8, 1u8, 1u8, 1u8];
            assert(c2 =~= seq![1u8, 1u8] + (ones5 + lb));
            lemma_read_all_split(d, s2, 2, 12, c2);
            assert(c2.take(2) =~= seq![1u8, 1u8]);
            assert(c2.skip(2) =~= ones5 + lb);
            lemma_bits_read_value(d, s2, 2, 0, seq![1u8, 1u8]);
            let s3 = read_state(d, s2, 2);
            lemma_read_all_split(d, s3, 5, 7, ones5 + lb);
            assert((ones5 + lb).take(5) =~= ones5);
            assert((ones5 + lb).skip(5) =~= lb);
            lemma_bits_read_value(d, s3, 5, 0, ones5);
            let s4 = read_state(d, s3, 5);
            lemma_bits_read_value(d, s4, 7, 0, lb);
            lemma_bits_num_low_bits((n - 37) as nat, 7);
        }
    }
}

proof fn lemma_bits_read_bound(d: Seq<u8>, s: BitReadState, n: nat)
    requires
        n <= 8,
    ensures
        bits_read(d, s, n, 0).1 matches Some(v) ==> v < vstd::arithmetic::power2::pow2(n),
{
    vstd::arithmetic::power2::lemma2_to64();
    lemma_bits_read_bound_acc(d, s, n, 0, 0);
}


/// `floor(log2(n))` for `n > 0`, as the packet header computes it.
pub open spec fn floor_log2(n: u8) -> int {
    31 - u32_leading_zeros(n as u32)
}

/// `floor(log2(n))` of a nonzero byte lies within `0..=7`.
pub proof fn lemma_floor_log2_bound(n: u8)
    requires
        n > 0,
    ensures
        0 <= floor_log2(n) <= 7,
{
    let m = n as u32;
    vstd::std_specs::bits::axiom_u32_leading_zeros(m);
    let lz = u32_leading_zeros(m);
    assert(m < 256 && m > 0 ==> m >> 8u32 == 0) by (bit_vector);
    if lz < 24 {
        let sh = (31 - lz) as u32;
        assert(sh >= 8 && m < 256 ==> (m >> sh) & 1u32 == 0) by (bit_vector);
    }
}

fn log2_of_passes(n: u8) -> (r: i32)
    ensures
        n > 0 ==> r == floor_log2(n) && 0 <= r <= 7,
        n == 0 ==> r == 0,
{
    if n > 0 {
        let lz = (n as u32).leading_zeros();
        proof {
            vstd::std_specs::bits::axiom_u32_leading_zeros(n as u32);
            let m = n as u32;
            assert(m < 256 && m > 0 ==> m >> 8u32 == 0) by (bit_vector);
            if lz < 24 {
                let sh = (31 - lz) as u32;
                assert(sh >= 8 && m < 256 ==> (m >> sh) & 1u32 == 0) by (bit_vector);
            }
        }
        (31 - lz) as i32
    } else {
        0
    }
}

/// What a packet header gives of an included code-block: at most 164 passes, the
/// base length of 3 bits.
pub open spec fn decoded_block_ok(cb: CodeBlockInfo, num_subbands: usize) -> bool {
    &&& cb.included
    &&& 1 <= cb.num_passes <= 164
    &&& cb.numlenbits == 3
}

impl PacketHeader {
    /// Reads the code-blocks of subband `s` of a packet into `out`.
    fn read_subband(
        reader: &mut J2kBitReader<'_, '_>,
        sb: &mut SubbandState,
        layer: u32,
        s: usize,
        grid_width: usize,
        grid_height: usize,
        out: &mut Vec<CodeBlockInfo>,
    ) -> (r: Result<(), BitIoError>)
        requires
            old(reader).wf(),
            old(sb).wf(),
            layer < u32::MAX,
        ensures
            final(reader).wf(),
            final(reader).reader.same_but_pos(old(reader).reader),
            final(sb).wf(),
            old(out)@.len() <= final(out)@.len(),
            forall|i: int| 0 <= i < old(out)@.len() ==> #[trigger] final(out)@[i] == old(out)@[i],
            forall|i: int|
                old(out)@.len() <= i < final(out)@.len() ==> {
                    let cb = #[trigger] final(out)@[i];
                    &&& decoded_block_ok(cb, 0)
                    &&& cb.subband_index == s as u8
                    &&& cb.x < grid_width
                    &&& cb.y < grid_height
                },
    {
        let threshold = (layer + 1) as i32;
        let mut y: usize = 0;
        while y < grid_height
            invariant
                reader.wf(),
                reader.reader.same_but_pos(old(reader).reader),
                sb.wf(),
                old(out)@.len() <= out@.len(),
                forall|i: int| 0 <= i < old(out)@.len() ==> #[trigger] out@[i] == old(out)@[i],
                forall|i: int|
                    old(out)@.len() <= i < out@.len() ==> {
                        let cb = #[trigger] out@[i];
                        &&& decoded_block_ok(cb, 0)
                        &&& cb.subband_index == s as u8
                        &&& cb.x < grid_width
                        &&& cb.y < grid_height
                    },
            decreases grid_height - y,
        {
            let mut x: usize = 0;
            while x < grid_width
                invariant
                    reader.wf(),
                    reader.reader.same_but_pos(old(reader).reader),
                    sb.wf(),
                    y < grid_height,
                    old(out)@.len() <= out@.len(),
                    forall|i: int| 0 <= i < old(out)@.len() ==> #[trigger] out@[i] == old(out)@[i],
                    forall|i: int|
                        old(out)@.len() <= i < out@.len() ==> {
                            let cb = #[trigger] out@[i];
                            &&& decoded_block_ok(cb, 0)
                            &&& cb.subband_index == s as u8
                            &&& cb.x < grid_width
                            &&& cb.y < grid_height
                        },
                decreases grid_width - x,
            {
                let already_included = sb.inclusion_tree.is_known_below_threshold(x, y, threshold);
                let mut process_block = false;
                if already_included {
                    if reader.read_bit()? == 1 {
                        process_block = true;
                    }
                } else {
                    let not_included_yet = sb.inclusion_tree.decode(reader, x, y, threshold)?;
                    if !not_included_yet {
                        process_block = true;
                    }
                }
                if process_block {
                    if !already_included {
                        sb.zero_bp_tree.decode(reader, x, y, 128)?;
                    }
                    let zero_bp = sb.zero_bp_tree.get_current_value(x, y) as u8;
                    let num_passes = Self::read_coding_passes(reader)?;
                    let lblock_inc = Self::read_comma_code(reader)?;
                    let lblock = (lblock_inc + 3) as i32;
                    let log2_passes = log2_of_passes(num_passes);
                    let lbits = lblock + log2_passes;
                    let data_len = reader.read_bits(lbits as u8)?;
                    out.push(
                        CodeBlockInfo {
                            x,
                            y,
                            subband_index: s as u8,
                            included: true,
                            num_passes,
                            data_len,
                            zero_bp,
                            numlenbits: 3,
                        },
                    );
                }
                x = x + 1;
            }
            y = y + 1;
        }
        Ok(())
    }

    /// Reads a packet header of layer `layer` with `num_subbands` subbands, whose grids of
    /// code-blocks are `subband_grids` (none past its end): an empty packet is a single
    /// 0 bit; else, for each code-block, its inclusion, zero bit-planes, passes and data
    /// length. The reader ends byte-aligned.
    pub fn read(
        reader: &mut J2kBitReader<'_, '_>,
        state: &mut PrecinctState,
        layer: u32,
        subband_grids: &[(usize, usize)],
        num_subbands: usize,
    ) -> (r: Result<Self, BitIoError>)
        requires
            old(reader).wf(),
            old(state).wf(),
            layer < u32::MAX,
            forall|k: int| 0 <= k < subband_grids@.len() ==> grid_fits(#[trigger] subband_grids@[k].0, subband_grids@[k].1),
        ensures
            final(reader).wf(),
            final(reader).reader.same_but_pos(old(reader).reader),
            final(state).wf(),
            (bit_step(old(reader).data(), old(reader).state()) matches Some((_, b)) && b == 0) ==> (r matches Ok(
                h,
            ) && h.empty && h.included_cblks@.len() == 0),
            bit_step(old(reader).data(), old(reader).state()) is None ==> r is Err,
            r matches Ok(h) ==> {
                &&& h.layer_index == layer
                &&& h.packet_seq_num == 0
                &&& forall|i: int|
                    0 <= i < h.included_cblks@.len() ==> {
                        let cb = #[trigger] h.included_cblks@[i];
                        &&& decoded_block_ok(cb, num_subbands)
                        &&& (cb.subband_index as int) < num_subbands || num_subbands > 256
                    }
            },
    {
        let mut header = PacketHeader {
            packet_seq_num: 0,
            empty: false,
            layer_index: layer,
            included_cblks: Vec::new(),
        };
        let bit = reader.read_bit()?;
        if bit == 0 {
            header.empty = true;
            reader.align_to_byte();
            return Ok(header);
        }
        let mut s: usize = 0;
        while s < num_subbands
            invariant
                reader.wf(),
                reader.reader.same_but_pos(old(reader).reader),
                state.wf(),
                s <= num_subbands,
                state.subbands@.len() >= s,
                layer < u32::MAX,
                bit_step(old(reader).data(), old(reader).state()) matches Some((_, b)) && b != 0,
                header.layer_index == layer,
                header.packet_seq_num == 0,
                forall|k: int| 0 <= k < subband_grids@.len() ==> grid_fits(#[trigger] subband_grids@[k].0, subband_grids@[k].1),
                forall|i: int|
                    0 <= i < header.included_cblks@.len() ==> {
                        let cb = #[trigger] header.included_cblks@[i];
                        &&& decoded_block_ok(cb, num_subbands)
                        &&& (cb.subband_index as int) < num_subbands || num_subbands > 256
                    },
            decreases num_subbands - s,
        {
            let (grid_width, grid_height) = if s < subband_grids.len() {
                subband_grids[s]
            } else {
                (0, 0)
            };
            assert(grid_fits(grid_width, grid_height)) by {
                if s < subband_grids@.len() {
                    assert(grid_fits(subband_grids@[s as int].0, subband_grids@[s as int].1));
                } else {
                    assert(tree_size(0, 0) == 0);
                }
            }
            if state.subbands.len() <= s {
                state.subbands.push(SubbandState::new(grid_width, grid_height));
            }
            let mut sb = state.subbands.remove(s);
            let res = Self::read_subband(reader, &mut sb, layer, s, grid_width, grid_height, &mut header.included_cblks);
            state.subbands.insert(s, sb);
            proof {
                assert forall|i: int| 0 <= i < header.included_cblks@.len() implies {
                    let cb = #[trigger] header.included_cblks@[i];
                    &&& decoded_block_ok(cb, num_subbands)
                    &&& (cb.subband_index as int) < num_subbands || num_subbands > 256
                } by {
                    let cb = header.included_cblks@[i];
                    if cb.subband_index == s as u8 && num_subbands <= 256 {
                        assert((s as u8) as int == s);
                    }
                }
            }
            match res {
                Ok(()) => {},
                Err(e) => {
                    return Err(e);
                },
            }
            s = s + 1;
        }
        reader.align_to_byte();
        Ok(header)
    }
}

/// A code-block entry can be written: an included block has passes, and its length
/// field fits in 32 bits.
pub open spec fn writable_block(cb: CodeBlockInfo) -> bool {
    cb.included ==> cb.num_passes != 0 && cb.numlenbits + floor_log2(cb.num_passes) <= 32
}

fn bits_needed_for(v: u32) -> (r: i32)
    ensures
        1 <= r <= 32,
        r == (if v == 0 { 1 } else { 32 - u32_leading_zeros(v) }),
{
    if v > 0 {
        let lz = v.leading_zeros();
        proof {
            vstd::std_specs::bits::axiom_u32_leading_zeros(v);
        }
        (32 - lz) as i32
    } else {
        1
    }
}

impl PacketHeader {
    /// The first entry for block `(x, y)` of subband `s`, if any.
    fn find_block(&self, x: usize, y: usize, s: u8) -> (r: Option<CodeBlockInfo>)
        ensures
            r matches Some(c) ==> exists|i: int| 0 <= i < self.included_cblks@.len() && self.included_cblks@[i] == c,
            r matches Some(c) ==> c.x == x && c.y == y && c.subband_index == s,
            r is None ==> forall|i: int|
                0 <= i < self.included_cblks@.len() ==> !(#[trigger] self.included_cblks@[i].x == x
                    && self.included_cblks@[i].y == y && self.included_cblks@[i].subband_index == s),
    {
        let mut i: usize = 0;
        while i < self.included_cblks.len()
            invariant
                i <= self.included_cblks@.len(),
                forall|k: int|
                    0 <= k < i ==> !(#[trigger] self.included_cblks@[k].x == x && self.included_cblks@[k].y == y
                        && self.included_cblks@[k].subband_index == s),
            decreases self.included_cblks@.len() - i,
        {
            let c = self.included_cblks[i];
            if c.x == x && c.y == y && c.subband_index == s {
                return Some(c);
            }
            i = i + 1;
        }
        None
    }

    fn write_subband(&self, writer: &mut J2kBitWriter, sb: &mut SubbandState, s: usize, grid_width: usize, grid_height: usize)
        requires
            old(writer).wf(),
            old(sb).wf(),
            self.layer_index < u32::MAX,
            self.layer_index != 0x7FFF_FFFE,
            forall|i: int| 0 <= i < self.included_cblks@.len() ==> writable_block(#[trigger] self.included_cblks@[i]),
        ensures
            final(writer).wf(),
            final(sb).wf(),
    {
        let threshold = (self.layer_index + 1) as i32;
        let mut y: usize = 0;
        while y < grid_height
            invariant
                writer.wf(),
                sb.wf(),
                threshold == (self.layer_index + 1) as i32,
                self.layer_index < u32::MAX,
                self.layer_index != 0x7FFF_FFFE,
                forall|i: int| 0 <= i < self.included_cblks@.len() ==> writable_block(#[trigger] self.included_cblks@[i]),
            decreases grid_height - y,
        {
            let mut x: usize = 0;
            while x < grid_width
                invariant
                    writer.wf(),
                    sb.wf(),
                    threshold == (self.layer_index + 1) as i32,
                    self.layer_index < u32::MAX,
                    self.layer_index != 0x7FFF_FFFE,
                    forall|i: int| 0 <= i < self.included_cblks@.len() ==> writable_block(#[trigger] self.included_cblks@[i]),
                decreases grid_width - x,
            {
                let cb_info = self.find_block(x, y, s as u8);
                let included = match cb_info {
                    Some(c) => c.included,
                    None => false,
                };
                if included {
                    let cb = match cb_info {
                        Some(c) => c,
                        None => {
                            x = x + 1;
                            continue;
                        },
                    };
                    sb.inclusion_tree.set_value(x, y, self.layer_index as i32);
                    sb.inclusion_tree.encode(writer, x, y, threshold);
                    sb.zero_bp_tree.set_value(x, y, cb.zero_bp as i32);
                    sb.zero_bp_tree.encode(writer, x, y, 999);
                    Self::write_coding_passes(writer, cb.num_passes);
                    let bits_needed = bits_needed_for(cb.data_len);
                    let log2_passes = log2_of_passes(cb.num_passes);
                    let numlenbits = cb.numlenbits as i32;
                    let diff = bits_needed - numlenbits - log2_passes;
                    let increment = if diff > 0 { diff } else { 0 };
                    let lblock = numlenbits + increment;
                    let lbits = lblock + log2_passes;
                    Self::write_comma_code(writer, increment);
                    writer.write_bits(cb.data_len, lbits as u8);
                } else {
                    proof {
                        let li = self.layer_index;
                        assert(threshold < i32::MAX) by (bit_vector)
                            requires
                                threshold == (li + 1) as i32,
                                li != 0x7FFF_FFFE,
                                li < 0xFFFF_FFFF,
                        ;
                    }
                    sb.inclusion_tree.set_value(x, y, threshold + 1);
                    sb.inclusion_tree.encode(writer, x, y, threshold);
                }
                x = x + 1;
            }
            y = y + 1;
        }
    }

    /// Writes this packet header: a 0 bit for an empty packet; else a 1 bit, then for
    /// each code-block of each subband its inclusion (tag tree), and for an included
    /// block its zero bit-planes (tag tree), passes, length increment and data length.
    /// The writer ends byte-aligned.
    pub fn write(
        &self,
        writer: &mut J2kBitWriter,
        state: &mut PrecinctState,
        subband_grids: &[(usize, usize)],
        num_subbands: usize,
    )
        requires
            old(writer).wf(),
            old(state).wf(),
            self.layer_index < u32::MAX,
            self.layer_index != 0x7FFF_FFFE,
            forall|i: int| 0 <= i < self.included_cblks@.len() ==> writable_block(#[trigger] self.included_cblks@[i]),
            forall|k: int| 0 <= k < subband_grids@.len() ==> grid_fits(#[trigger] subband_grids@[k].0, subband_grids@[k].1),
        ensures
            final(writer).wf(),
            final(state).wf(),
            self.empty ==> final(writer).state() == crate::jpeg2000::bit_io::align_step(
                write_step(old(writer).state(), 0),
            ) && final(state).subbands@ == old(state).subbands@,
    {
        if self.empty {
            writer.write_bit(0);
            writer.align_to_byte();
            return;
        }
        writer.write_bit(1);
        let mut s: usize = 0;
        while s < num_subbands
            invariant
                writer.wf(),
                state.wf(),
                s <= num_subbands,
                state.subbands@.len() >= s,
                self.layer_index < u32::MAX,
                self.layer_index != 0x7FFF_FFFE,
                forall|i: int| 0 <= i < self.included_cblks@.len() ==> writable_block(#[trigger] self.included_cblks@[i]),
                forall|k: int| 0 <= k < subband_grids@.len() ==> grid_fits(#[trigger] subband_grids@[k].0, subband_grids@[k].1),
            decreases num_subbands - s,
        {
            let (grid_width, grid_height) = if s < subband_grids.len() {
                subband_grids[s]
            } else {
                (0, 0)
            };
            assert(grid_fits(grid_width, grid_height)) by {
                if s < subband_grids@.len() {
                    assert(grid_fits(subband_grids@[s as int].0, subband_grids@[s as int].1));
                } else {
                    assert(tree_size(0, 0) == 0);
                }
            }
            if state.subbands.len() <= s {
                state.subbands.push(SubbandState::new(grid_width, grid_height));
            }
            let mut sb = state.subbands.remove(s);
            self.write_subband(writer, &mut sb, s, grid_width, grid_height);
            state.subbands.insert(s, sb);
            s = s + 1;
        }
        writer.align_to_byte();
    }
}

/// Whether a grid of `w` by `h` code-blocks can have its tag trees: computes the trees'
/// size, stopping once it passes the largest `usize`.
pub fn grid_fits_check(w: usize, h: usize) -> (r: bool)
    ensures
        r == grid_fits(w, h),
{
    if w == usize::MAX || h == usize::MAX {
        return false;
    }
    let mut total: usize = 0;
    let mut cw: usize = w;
    let mut ch: usize = h;
    loop
        invariant
            cw <= w < usize::MAX,
            ch <= h < usize::MAX,
            total + tree_size(cw as nat, ch as nat) == tree_size(w as nat, h as nat),
        decreases cw + ch,
    {
        let a: u128 = cw as u128;
        let b: u128 = ch as u128;
        assert(a * b <= u128::MAX) by (nonlinear_arith)
            requires
                a <= 0xFFFF_FFFF_FFFF_FFFFu128,
                b <= 0xFFFF_FFFF_FFFF_FFFFu128,
        ;
        let level: u128 = a * b;
        if level > (usize::MAX - total) as u128 {
            proof {
                lemma_tree_size_ge_local(cw as nat, ch as nat);
            }
            return false;
        }
        total = total + level as usize;
        if cw <= 1 && ch <= 1 {
            return true;
        }
        cw = (cw + 1) / 2;
        ch = (ch + 1) / 2;
    }
}

proof fn lemma_tree_size_ge_local(w: nat, h: nat)
    ensures
        tree_size(w, h) >= w * h,
    decreases w + h,
{
    if !(w <= 1 && h <= 1) {
        lemma_tree_size_ge_local((w + 1) / 2, (h + 1) / 2);
    }
}
} // verus!
