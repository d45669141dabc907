//! The JPEG-LS scan decoder: reads the Golomb codes of one scan and rebuilds its
//! samples (ISO/IEC 14495-1, Annex A), with one set of contexts for all components.
use crate::constants::j;
use crate::error::JpeglsError;
use crate::jpeg_marker_code::JPEG_MARKER_START_BYTE;
use crate::jpegls::coding_parameters::{CodingParameters, JpeglsPcParameters};
use crate::jpegls::regular_mode_context::RegularModeContext;
use crate::jpegls::run_mode_context::RunModeContext;
use crate::jpegls::scan_encoder::{
    coded_components, regular_context_count, spec_context_id, spec_predicted_value, spec_quantize_gradient,
};
use crate::jpegls::traits::{
    apply_sign, apply_sign_for_index, bit_wise_sign, compute_reconstructed_sample, correct_prediction,
};
use crate::jpegls::InterleaveMode;
use crate::FrameInfo;
use crate::bits::{lemma_i32_halves, lemma_one_shl_u64, lemma_one_shl_usize, lemma_pow2_small, lemma_sign_xor, lemma_xor_correction};
use vstd::prelude::*;

verus! {

/// `after` is run mode context `ctx` updated after decoding run interruption error `e`
/// from some mapped error value within the bounds of the update.
pub open spec fn interruption_decoded(ctx: RunModeContext, after: RunModeContext, e: int, reset: int) -> bool {
    exists|em: int|
        0 <= em <= 262144 && e == ctx.unmapped_interruption_error(em) && #[trigger] ctx.run_updated_by(after, e, em, reset)
            && ctx.can_update(em)
}

/// `v` is a run interruption sample reconstructed as `pred + sign * e` (masked to the
/// sample range) from an error `e` decoded with context `ctx`, which became `after`.
pub open spec fn interruption_sample(
    ctx: RunModeContext,
    after: RunModeContext,
    pred: int,
    sign: int,
    max: int,
    reset: int,
    v: int,
) -> bool {
    exists|e: int|
        #[trigger] interruption_decoded(ctx, after, e, reset) && -131073 <= e <= 131073 && v == (((pred + sign * e)
            as i32) & (max as i32))
}

/// The first `run` pixels from `start` of `line` repeat, component by component, the
/// pixel left of `start` in `orig`, which `line` keeps.
pub open spec fn run_prefix_ok(line: Seq<i32>, orig: Seq<i32>, start: int, comps: int, run: int) -> bool {
    &&& line.len() == orig.len()
    &&& forall|c: int| 0 <= c < comps ==> #[trigger] line[start * comps + c] == orig[start * comps + c]
    &&& forall|u: int|
        #![trigger line[(start + 1) * comps + u]]
        0 <= u < run * comps ==> line[(start + 1) * comps + u] == orig[start * comps + u % comps]
}

/// Repeating the left neighbor over `count` more pixels keeps [`run_prefix_ok`].
proof fn lemma_run_extend(before: Seq<i32>, after: Seq<i32>, orig: Seq<i32>, start: int, comps: int, run: int, count: int)
    requires
        comps > 0,
        0 <= start,
        0 <= run,
        0 <= count,
        run_prefix_ok(before, orig, start, comps, run),
        after.len() == before.len(),
        (start + run + 1) * comps + count * comps <= before.len(),
        forall|u: int|
            #![trigger after[(start + run + 1) * comps + u]]
            0 <= u < count * comps ==> after[(start + run + 1) * comps + u] == before[(start + run) * comps + u % comps],
        forall|j: int|
            0 <= j < after.len() && !((start + run + 1) * comps <= j < (start + run + 1) * comps + count * comps) ==> #[trigger] after[j]
                == before[j],
    ensures
        run_prefix_ok(after, orig, start, comps, run + count),
{
    assert((start + run + 1) * comps == (start + 1) * comps + run * comps) by (nonlinear_arith);
    assert((run + count) * comps == run * comps + count * comps) by (nonlinear_arith);
    assert(start * comps + comps == (start + 1) * comps) by (nonlinear_arith);
    assert forall|c: int| 0 <= c < comps implies #[trigger] after[start * comps + c] == orig[start * comps + c] by {
        assert(start * comps + c < (start + run + 1) * comps) by (nonlinear_arith)
            requires
                0 <= c < comps,
                0 <= run,
                start * comps + comps == (start + 1) * comps,
                (start + run + 1) * comps == (start + 1) * comps + run * comps,
                run * comps >= 0,
        ;
        assert(run * comps >= 0) by (nonlinear_arith)
            requires
                0 <= run,
                comps > 0,
        ;
    }
    assert forall|u: int|
        #![trigger after[(start + 1) * comps + u]]
        0 <= u < (run + count) * comps implies after[(start + 1) * comps + u] == orig[start * comps + u % comps] by {
        if u < run * comps {
            assert(before[(start + 1) * comps + u] == orig[start * comps + u % comps]);
        } else {
            let v = u - run * comps;
            assert(after[(start + run + 1) * comps + v] == before[(start + run) * comps + v % comps]);
            vstd::arithmetic::div_mod::lemma_mod_multiples_vanish(run, v, comps);
            assert((comps * run + v) % comps == v % comps);
            assert(comps * run == run * comps) by (nonlinear_arith);
            assert(0 <= v % comps < comps) by {
                vstd::arithmetic::div_mod::lemma_mod_bound(v, comps);
            }
            if run == 0 {
                assert((start + run) * comps + v % comps == start * comps + v % comps);
                assert(before[start * comps + v % comps] == orig[start * comps + v % comps]);
            } else {
                let w = (run - 1) * comps + v % comps;
                assert((start + run) * comps + v % comps == (start + 1) * comps + w) by (nonlinear_arith)
                    requires
                        w == (run - 1) * comps + v % comps,
                ;
                assert(0 <= w < run * comps) by (nonlinear_arith)
                    requires
                        w == (run - 1) * comps + v % comps,
                        0 <= v % comps < comps,
                        run >= 1,
                ;
                assert(before[(start + 1) * comps + w] == orig[start * comps + w % comps]);
                vstd::arithmetic::div_mod::lemma_mod_multiples_vanish(run - 1, v % comps, comps);
                assert(comps * (run - 1) == (run - 1) * comps) by (nonlinear_arith);
                vstd::arithmetic::div_mod::lemma_mod_twice(v, comps);
            }
        }
    }
}

/// The number of 0xFF bytes among `source[from..to]`.
pub open spec fn ff_count(source: Seq<u8>, from: int, to: int) -> int
    decreases to - from,
{
    if to <= from {
        0
    } else {
        ff_count(source, from, to - 1) + if source[to - 1] == 0xFF { 1int } else { 0int }
    }
}

/// Filling the bit cache stops at `pos`: the data ends there, or a marker (0xFF then a
/// byte with its top bit set, or 0xFF as the last byte) starts there.
pub open spec fn cache_fill_stops(source: Seq<u8>, pos: int) -> bool {
    ||| pos >= source.len()
    ||| source[pos] == 0xFF && (pos + 1 >= source.len() || source[pos + 1] & 0x80 != 0)
}

/// The parameters a scan can be decoded with: sample depth 2 to 16, component count 1
/// to 255, and the preset parameters in the ranges the standard gives them.
pub open spec fn decode_params_ok(frame_info: FrameInfo, pc: JpeglsPcParameters, coding: CodingParameters) -> bool {
    &&& 2 <= frame_info.bits_per_sample <= 16
    &&& 1 <= frame_info.component_count <= 255
    &&& 1 <= pc.maximum_sample_value <= 65535
    &&& 0 <= coding.near_lossless <= 255
    &&& 0 <= pc.threshold1 <= 65535
    &&& 0 <= pc.threshold2 <= 65535
    &&& 0 <= pc.threshold3 <= 65535
    &&& 2 <= pc.reset_value <= 65535
    &&& -65536 <= coding.limit <= 65535
}

/// The error value of mapped value `m` (A.5.2 inverted): `m / 2` for even `m`, else
/// `-(m + 1) / 2`.
pub open spec fn spec_unmap_error(m: int) -> int {
    if m % 2 == 0 { m / 2 } else { -((m + 1) / 2) }
}

/// Unmapping a mapped error value gives the error value back (A.5.2 and its inverse).
pub proof fn lemma_unmap_maps_back(e: int)
    ensures
        spec_unmap_error(crate::jpegls::scan_encoder::spec_map_error(e)) == e,
        crate::jpegls::scan_encoder::spec_map_error(e) >= 0,
{
}

/// A decoder line buffer: `comps` boundary samples, `width` pixels of `comps` samples,
/// `comps` more, every value a 16-bit sample.
pub open spec fn dline_ok(v: Seq<i32>, width: int, comps: int) -> bool {
    &&& v.len() == (width + 2) * comps
    &&& forall|i: int| 0 <= i < v.len() ==> 0 <= #[trigger] v[i] <= 65535
}

/// Sample `c` of pixel `p` (counting the boundary as pixel 0) sits inside the buffer.
pub proof fn lemma_dline_index(p: int, c: int, width: int, comps: int)
    requires
        0 <= p <= width + 1,
        0 <= c < comps,
    ensures
        0 <= p * comps + c < (width + 2) * comps,
        (p + 1) * comps == p * comps + comps,
        (width + 2) * comps == width * comps + 2 * comps,
{
    assert(p * comps + c < (width + 2) * comps) by (nonlinear_arith)
        requires
            0 <= p <= width + 1,
            0 <= c < comps,
    ;
    assert(p * comps >= 0) by (nonlinear_arith)
        requires
            p >= 0,
            comps >= 0,
    ;
    assert((p + 1) * comps == p * comps + comps) by (nonlinear_arith);
    assert((width + 2) * comps == width * comps + 2 * comps) by (nonlinear_arith);
}

/// Reads the bits of a scan through a 64-bit cache whose top holds the next bits.
pub struct ScanDecoder<'a> {
    /// The frame being decoded.
    pub frame_info: FrameInfo,
    /// Preset coding parameters.
    pub pc_parameters: JpeglsPcParameters,
    /// Coding parameters of the scan.
    pub coding_parameters: CodingParameters,
    /// The coded data.
    pub source: &'a [u8],
    /// Bytes moved to the cache.
    pub position: usize,
    /// Bits of the cache not read yet.
    pub valid_bits: i32,
    /// The bit cache.
    pub read_cache: u64,
    /// The 365 regular mode contexts.
    pub regular_mode_contexts: Vec<RegularModeContext>,
    /// The two run interruption contexts.
    pub run_mode_contexts: Vec<RunModeContext>,
    /// Run index of each component (the first one is used).
    pub run_index: Vec<usize>,
    /// Gradient threshold T1.
    pub t1: i32,
    /// Gradient threshold T2.
    pub t2: i32,
    /// Gradient threshold T3.
    pub t3: i32,
    /// RESET.
    pub reset_threshold: i32,
    /// LIMIT.
    pub limit: i32,
    /// Bits per sample of the escape code.
    pub quantized_bits_per_sample: i32,
}

impl<'a> ScanDecoder<'a> {
    /// The parameters are valid, the cache is in shape, and the contexts are valid for RESET.
    pub open spec fn wf(&self) -> bool {
        let n = coded_components(self.frame_info, self.coding_parameters);
        &&& decode_params_ok(self.frame_info, self.pc_parameters, self.coding_parameters)
        &&& self.t1 == self.pc_parameters.threshold1
        &&& self.t2 == self.pc_parameters.threshold2
        &&& self.t3 == self.pc_parameters.threshold3
        &&& self.reset_threshold == self.pc_parameters.reset_value
        &&& self.limit == self.coding_parameters.limit
        &&& self.quantized_bits_per_sample == self.frame_info.bits_per_sample
        &&& self.position <= self.source@.len()
        &&& -1 <= self.valid_bits <= 63
        &&& self.regular_mode_contexts@.len() == regular_context_count()
        &&& forall|i: int|
            0 <= i < regular_context_count() ==> (#[trigger] self.regular_mode_contexts@[i]).wf(
                self.reset_threshold as int,
            )
        &&& self.run_mode_contexts@.len() == 2
        &&& self.run_mode_contexts@[0].wf(self.reset_threshold as int)
        &&& self.run_mode_contexts@[1].wf(self.reset_threshold as int)
        &&& self.run_mode_contexts@[0].spec_ri() == 0
        &&& self.run_mode_contexts@[1].spec_ri() == 1
        &&& self.run_index@.len() == n
        &&& forall|c: int| 0 <= c < n ==> #[trigger] self.run_index@[c] < 32
    }

    /// Everything but the cache and the contexts is as in `other`.
    pub open spec fn same_setup(&self, other: &Self) -> bool {
        &&& self.frame_info == other.frame_info
        &&& self.pc_parameters == other.pc_parameters
        &&& self.coding_parameters == other.coding_parameters
        &&& self.source@ == other.source@
        &&& self.t1 == other.t1
        &&& self.t2 == other.t2
        &&& self.t3 == other.t3
        &&& self.reset_threshold == other.reset_threshold
        &&& self.limit == other.limit
        &&& self.quantized_bits_per_sample == other.quantized_bits_per_sample
    }

    /// A decoder of a scan of `frame_info` from `source`, with fresh contexts, run
    /// indexes 0, and the cache filled. Parameters outside the ranges of
    /// [`decode_params_ok`] are `ParameterValueNotSupported`.
    pub fn new(
        frame_info: FrameInfo,
        pc_parameters: JpeglsPcParameters,
        coding_parameters: CodingParameters,
        source: &'a [u8],
    ) -> (r: Result<Self, JpeglsError>)
        ensures
            r is Ok <==> decode_params_ok(frame_info, pc_parameters, coding_parameters),
            r matches Ok(d) ==> {
                &&& d.wf()
                &&& d.frame_info == frame_info
                &&& d.pc_parameters == pc_parameters
                &&& d.coding_parameters == coding_parameters
                &&& d.source@ == source@
            },
            r matches Err(e) ==> e == JpeglsError::ParameterValueNotSupported,
    {
        if !(2 <= frame_info.bits_per_sample && frame_info.bits_per_sample <= 16 && 1 <= frame_info.component_count
            && frame_info.component_count <= 255 && 1 <= pc_parameters.maximum_sample_value
            && pc_parameters.maximum_sample_value <= 65535 && 0 <= coding_parameters.near_lossless
            && coding_parameters.near_lossless <= 255 && 0 <= pc_parameters.threshold1
            && pc_parameters.threshold1 <= 65535 && 0 <= pc_parameters.threshold2
            && pc_parameters.threshold2 <= 65535 && 0 <= pc_parameters.threshold3
            && pc_parameters.threshold3 <= 65535 && 2 <= pc_parameters.reset_value
            && pc_parameters.reset_value <= 65535 && -65536 <= coding_parameters.limit
            && coding_parameters.limit <= 65535) {
            return Err(JpeglsError::ParameterValueNotSupported);
        }
        let range = pc_parameters.maximum_sample_value + 1;
        let reset = pc_parameters.reset_value;
        let num_components: usize = if coding_parameters.interleave_mode == InterleaveMode::NotInterleaved {
            1
        } else {
            frame_info.component_count as usize
        };
        let mut run_index: Vec<usize> = Vec::new();
        let mut c: usize = 0;
        while c < num_components
            invariant
                c <= num_components,
                run_index@.len() == c,
                forall|k: int| 0 <= k < c ==> #[trigger] run_index@[k] == 0,
            decreases num_components - c,
        {
            run_index.push(0);
            c = c + 1;
        }
        let fresh = RegularModeContext::new(range);
        let mut regular_mode_contexts: Vec<RegularModeContext> = Vec::new();
        let mut i: usize = 0;
        while i < 365
            invariant
                i <= 365,
                regular_mode_contexts@.len() == i,
                fresh.wf(reset as int),
                forall|m: int| 0 <= m < i ==> #[trigger] regular_mode_contexts@[m] == fresh,
            decreases 365 - i,
        {
            regular_mode_contexts.push(fresh);
            i = i + 1;
        }
        let mut run_mode_contexts: Vec<RunModeContext> = Vec::new();
        run_mode_contexts.push(RunModeContext::new(0, range));
        run_mode_contexts.push(RunModeContext::new(1, range));
        let mut decoder = Self {
            frame_info,
            pc_parameters,
            coding_parameters,
            source,
            position: 0,
            valid_bits: 0,
            read_cache: 0,
            regular_mode_contexts,
            run_mode_contexts,
            run_index,
            t1: pc_parameters.threshold1,
            t2: pc_parameters.threshold2,
            t3: pc_parameters.threshold3,
            reset_threshold: reset,
            limit: coding_parameters.limit,
            quantized_bits_per_sample: frame_info.bits_per_sample,
        };
        decoder.fill_read_cache();
        Ok(decoder)
    }

    /// Moves bytes into the cache until it holds at least 56 bits, the data ends, or a
    /// marker (0xFF followed by a byte with its top bit set) comes; a 0xFF byte counts
    /// one bit less.
    fn fill_read_cache(&mut self)
        requires
            old(self).wf(),
            old(self).valid_bits < 56,
        ensures
            final(self).wf(),
            final(self).same_setup(old(self)),
            final(self).regular_mode_contexts@ == old(self).regular_mode_contexts@,
            final(self).run_mode_contexts@ == old(self).run_mode_contexts@,
            final(self).run_index@ == old(self).run_index@,
            final(self).valid_bits >= old(self).valid_bits,
            old(self).position <= final(self).position,
            final(self).valid_bits == old(self).valid_bits + 8 * (final(self).position - old(self).position)
                - ff_count(old(self).source@, old(self).position as int, final(self).position as int),
            final(self).valid_bits >= 56 || cache_fill_stops(final(self).source@, final(self).position as int),
    {
        loop
            invariant_except_break
                self.valid_bits < 56,
            invariant
                self.wf(),
                self.same_setup(old(self)),
                self.regular_mode_contexts@ == old(self).regular_mode_contexts@,
                self.run_mode_contexts@ == old(self).run_mode_contexts@,
                self.run_index@ == old(self).run_index@,
                self.valid_bits >= old(self).valid_bits,
                old(self).position <= self.position,
                self.valid_bits == old(self).valid_bits + 8 * (self.position - old(self).position) - ff_count(
                    old(self).source@,
                    old(self).position as int,
                    self.position as int,
                ),
            ensures
                self.valid_bits >= 56 || cache_fill_stops(self.source@, self.position as int),
            decreases self.source@.len() - self.position,
        {
            if self.position >= self.source.len() {
                break;
            }
            let byte = self.source[self.position];
            if byte == JPEG_MARKER_START_BYTE {
                if self.position + 1 < self.source.len() {
                    let next_byte = self.source[self.position + 1];
                    if next_byte & 0x80 != 0 {
                        break;
                    }
                } else {
                    break;
                }
            }
            let shift = (56 - self.valid_bits) as u64;
            self.read_cache = self.read_cache | ((byte as u64) << shift);
            self.valid_bits = self.valid_bits + 8;
            self.position = self.position + 1;
            if byte == JPEG_MARKER_START_BYTE {
                self.valid_bits = self.valid_bits - 1;
            }
            if self.valid_bits >= 56 {
                break;
            }
        }
    }

    /// The next `count` bits, without reading them; too few bits left is `InvalidData`.
    fn peek_bits(&mut self, count: i32) -> (r: Result<i32, JpeglsError>)
        requires
            old(self).wf(),
            1 <= count <= 30,
        ensures
            final(self).wf(),
            final(self).same_setup(old(self)),
            final(self).regular_mode_contexts@ == old(self).regular_mode_contexts@,
            final(self).run_mode_contexts@ == old(self).run_mode_contexts@,
            final(self).run_index@ == old(self).run_index@,
            final(self).valid_bits >= old(self).valid_bits,
            old(self).position <= final(self).position,
            r is Ok <==> final(self).valid_bits >= count,
            r matches Ok(v) ==> 0 <= v < 0x4000_0000 && v == final(self).read_cache >> ((64 - count) as u64),
            r is Err ==> r == Err::<i32, JpeglsError>(JpeglsError::InvalidData),
            old(self).valid_bits >= count ==> *final(self) == *old(self),
    {
        if self.valid_bits < count {
            self.fill_read_cache();
        }
        if self.valid_bits < count {
            return Err(JpeglsError::InvalidData);
        }
        let cnt = count as u64;
        proof {
            lemma_one_shl_u64(cnt);
        }
        let mask: u64 = (1u64 << cnt) - 1;
        let down: u64 = 64 - cnt;
        let v: u64 = (self.read_cache >> down) & mask;
        let cache = self.read_cache;
        assert(v < 0x4000_0000 && v == cache >> down) by (bit_vector)
            requires
                1 <= cnt <= 30,
                down == 64 - cnt,
                mask == (1u64 << cnt) - 1,
                v == (cache >> down) & mask,
        ;
        Ok(v as i32)
    }

    /// Drops the next `count` bits.
    fn skip_bits(&mut self, count: i32)
        requires
            old(self).wf(),
            1 <= count <= 30,
            old(self).valid_bits >= count - 1,
        ensures
            final(self).wf(),
            final(self).same_setup(old(self)),
            final(self).regular_mode_contexts@ == old(self).regular_mode_contexts@,
            final(self).run_mode_contexts@ == old(self).run_mode_contexts@,
            final(self).run_index@ == old(self).run_index@,
            old(self).position <= final(self).position,
            old(self).valid_bits >= count ==> final(self).valid_bits == old(self).valid_bits - count
                && final(self).read_cache == old(self).read_cache << (count as u64) && final(self).position == old(
                self,
            ).position,
    {
        if self.valid_bits < count {
            self.fill_read_cache();
        }
        self.read_cache = self.read_cache << (count as u64);
        self.valid_bits = self.valid_bits - count;
    }

    /// Reads the next `count` bits.
    fn read_bits(&mut self, count: i32) -> (r: Result<i32, JpeglsError>)
        requires
            old(self).wf(),
            1 <= count <= 30,
        ensures
            final(self).wf(),
            final(self).same_setup(old(self)),
            final(self).regular_mode_contexts@ == old(self).regular_mode_contexts@,
            final(self).run_mode_contexts@ == old(self).run_mode_contexts@,
            final(self).run_index@ == old(self).run_index@,
            old(self).position <= final(self).position,
            r matches Ok(v) ==> 0 <= v < 0x4000_0000,
            r is Err ==> r == Err::<i32, JpeglsError>(JpeglsError::InvalidData),
            old(self).valid_bits >= count ==> {
                &&& r == Ok::<i32, JpeglsError>((old(self).read_cache >> ((64 - count) as u64)) as i32)
                &&& final(self).read_cache == old(self).read_cache << (count as u64)
                &&& final(self).valid_bits == old(self).valid_bits - count
                &&& final(self).position == old(self).position
            },
    {
        let v = self.peek_bits(count)?;
        self.skip_bits(count);
        Ok(v)
    }

    /// Reads a mapped error value coded with Golomb parameter `k` and limit `limit`: the
    /// count of zero bits before a one bit, then `k` low bits; when the zeros reach
    /// `limit - qbpp - 1`, the one bit and an escape value of qbpp bits (plus one). More
    /// than 32 zeros, or too few bits, is `InvalidData`.
    fn decode_mapped_error_value_with_limit(&mut self, k: i32, limit: i32) -> (r: Result<i32, JpeglsError>)
        requires
            old(self).wf(),
            0 <= k <= 30,
            -131072 <= limit <= 65535,
        ensures
            final(self).wf(),
            final(self).same_setup(old(self)),
            final(self).regular_mode_contexts@ == old(self).regular_mode_contexts@,
            final(self).run_mode_contexts@ == old(self).run_mode_contexts@,
            final(self).run_index@ == old(self).run_index@,
            old(self).position <= final(self).position,
            r is Err ==> r == Err::<i32, JpeglsError>(JpeglsError::InvalidData),
    {
        let mut value: i32 = 0;
        let mut bit_count: i32 = 0;
        let qbpp = self.quantized_bits_per_sample;
        let limit_threshold = limit - qbpp - 1;
        loop
            invariant
                self.wf(),
                self.same_setup(old(self)),
                self.regular_mode_contexts@ == old(self).regular_mode_contexts@,
                self.run_mode_contexts@ == old(self).run_mode_contexts@,
                self.run_index@ == old(self).run_index@,
                old(self).position <= self.position,
                0 <= value == bit_count <= 32,
                qbpp == self.frame_info.bits_per_sample,
            ensures
                self.valid_bits >= 1,
            decreases 33 - bit_count,
        {
            let b = self.peek_bits(1)?;
            if b != 0 {
                break;
            }
            value = value + 1;
            bit_count = bit_count + 1;
            self.skip_bits(1);
            if bit_count >= limit_threshold {
                self.skip_bits(1);
                let escape_value = self.read_bits(qbpp)?;
                return Ok(escape_value + 1);
            }
            if bit_count > 32 {
                return Err(JpeglsError::InvalidData);
            }
        }
        self.skip_bits(1);
        if k > 0 {
            let remainder = self.read_bits(k)?;
            let shifted: i32 = value << (k as u32);
            value = shifted | remainder;
        }
        Ok(value)
    }

    /// The error value of a mapped error value.
    fn unmap_error_value(&self, mapped_value: i32) -> (r: i32)
        requires
            0 <= mapped_value < i32::MAX,
        ensures
            r == spec_unmap_error(mapped_value as int),
    {
        let low = mapped_value & 1i32;
        let half = mapped_value >> 1i32;
        let plus: i32 = mapped_value + 1;
        let half1 = plus >> 1i32;
        proof {
            lemma_i32_halves(mapped_value);
            lemma_i32_halves(plus);
        }
        if low == 0 {
            half
        } else {
            -half1
        }
    }

    /// The region of local gradient `di` (A.3.3).
    fn quantize_gradient(&self, di: i32) -> (r: i32)
        requires
            self.wf(),
        ensures
            r == spec_quantize_gradient(di as int, self.t1 as int, self.t2 as int, self.t3 as int, self.coding_parameters.near_lossless as int),
            -4 <= r <= 4,
    {
        let near = self.coding_parameters.near_lossless;
        if di <= -self.t3 {
            return -4;
        }
        if di <= -self.t2 {
            return -3;
        }
        if di <= -self.t1 {
            return -2;
        }
        if di < -near {
            return -1;
        }
        if di <= near {
            return 0;
        }
        if di < self.t1 {
            return 1;
        }
        if di < self.t2 {
            return 2;
        }
        if di < self.t3 {
            return 3;
        }
        4
    }

    /// The context number of three gradient regions.
    fn compute_context_id(&self, q1: i32, q2: i32, q3: i32) -> (r: i32)
        requires
            -4 <= q1 <= 4,
            -4 <= q2 <= 4,
            -4 <= q3 <= 4,
        ensures
            r == spec_context_id(q1 as int, q2 as int, q3 as int),
            -364 <= r <= 364,
    {
        (q1 * 9 + q2) * 9 + q3
    }

    /// The prediction of a sample from `ra`, `rb` and `rc`, clamped to the frame's range.
    fn compute_predicted_value(&self, ra: i32, rb: i32, rc: i32) -> (r: i32)
        requires
            self.wf(),
            0 <= ra <= 65535,
            0 <= rb <= 65535,
            0 <= rc <= 65535,
        ensures
            r == spec_predicted_value(
                ra as int,
                rb as int,
                rc as int,
                vstd::arithmetic::power2::pow2(self.frame_info.bits_per_sample as nat) - 1,
            ),
            0 <= r <= 65535,
    {
        let sign = bit_wise_sign(rb - ra);
        let d1 = rc - ra;
        let d2 = rb - rc;
        proof {
            lemma_sign_xor(sign, d1);
            lemma_sign_xor(sign, d2);
        }
        let predicted = if (sign ^ d1) < 0 {
            rb
        } else if (sign ^ d2) < 0 {
            ra
        } else {
            ra + rb - rc
        };
        let bps = self.frame_info.bits_per_sample as u32;
        proof {
            vstd::arithmetic::power2::lemma2_to64();
            if bps < 16 {
                vstd::arithmetic::power2::lemma_pow2_strictly_increases(bps as nat, 16);
            }
            vstd::bits::lemma_u32_shl_is_mul(1u32, bps);
        }
        let shifted: u32 = 1u32 << bps;
        let max_val: i32 = (shifted - 1) as i32;
        if predicted < 0 {
            0
        } else if predicted > max_val {
            max_val
        } else {
            predicted
        }
    }

    /// Decodes a sample in regular mode with context `qs` and prediction `predicted`
    /// (A.4 to A.6), updates the context, and gives the reconstructed sample
    /// (`sample_max` is the largest value of the sample type). An error value whose
    /// magnitude passes 65536 is `InvalidData`.
    fn decode_regular(&mut self, qs: i32, predicted: i32, sample_max: i32) -> (r: Result<i32, JpeglsError>)
        requires
            old(self).wf(),
            -364 <= qs <= 364,
            0 <= predicted <= 65535,
            sample_max == 255 || sample_max == 65535,
        ensures
            final(self).wf(),
            final(self).same_setup(old(self)),
            final(self).run_mode_contexts@ == old(self).run_mode_contexts@,
            final(self).run_index@ == old(self).run_index@,
            old(self).position <= final(self).position,
            r matches Ok(v) ==> 0 <= v <= sample_max,
            r is Err ==> r == Err::<i32, JpeglsError>(JpeglsError::InvalidData),
            r matches Ok(v) ==> {
                let sign = crate::jpegls::traits::spec_bit_wise_sign(qs as int);
                let idx = crate::jpegls::traits::spec_apply_sign(qs as int, sign);
                let ctx = old(self).regular_mode_contexts@[idx];
                let pv = crate::jpegls::traits::spec_correct_prediction(
                    predicted + crate::jpegls::traits::spec_apply_sign(ctx.spec_c(), sign),
                    sample_max as int,
                );
                exists|e: int|
                    -65536 <= e <= 65536 && #[trigger] ctx.updated_by(
                        final(self).regular_mode_contexts@[idx],
                        e,
                        old(self).coding_parameters.near_lossless as int,
                        old(self).reset_threshold as int,
                    ) && v == ((pv + crate::jpegls::traits::spec_apply_sign(e, sign)) as i32 & sample_max)
            },
            r is Ok ==> forall|i: int|
                #![trigger final(self).regular_mode_contexts@[i]]
                0 <= i < final(self).regular_mode_contexts@.len() && i != crate::jpegls::traits::spec_apply_sign(
                    qs as int,
                    crate::jpegls::traits::spec_bit_wise_sign(qs as int),
                ) ==> final(self).regular_mode_contexts@[i] == old(self).regular_mode_contexts@[i],
    {
        let sign = bit_wise_sign(qs);
        let ctx_index = apply_sign_for_index(qs, sign);
        let near = self.coding_parameters.near_lossless;
        let mut ctx = self.regular_mode_contexts[ctx_index];
        let k = ctx.compute_golomb_coding_parameter(31)?;
        let context_c = ctx.c();
        let corrected = correct_prediction(predicted + apply_sign(context_c, sign), sample_max);
        let map_val = self.decode_mapped_error_value_with_limit(k, self.limit)?;
        if map_val < 0 || map_val > 262144 {
            return Err(JpeglsError::InvalidData);
        }
        let mut error_value = self.unmap_error_value(map_val);
        if k == 0 {
            let corr = ctx.get_error_correction(near);
            let flipped = error_value ^ corr;
            proof {
                lemma_xor_correction(error_value, corr);
            }
            error_value = flipped;
        }
        if error_value > 65536 || error_value < -65536 {
            return Err(JpeglsError::InvalidData);
        }
        let reset = self.reset_threshold;
        let outcome = ctx.update_variables_and_bias(error_value, near, reset);
        match outcome {
            Ok(()) => {},
            Err(e) => {
                return Err(e);
            },
        }
        self.regular_mode_contexts.set(ctx_index, ctx);
        let signed_error = apply_sign(error_value, sign);
        let v = compute_reconstructed_sample(corrected, signed_error, sample_max);
        proof {
            assert(ctx == self.regular_mode_contexts@[ctx_index as int]);
            let ev = error_value as int;
            assert(old(self).regular_mode_contexts@[ctx_index as int].updated_by(
                self.regular_mode_contexts@[ctx_index as int],
                ev,
                near as int,
                reset as int,
            ));
        }
        Ok(v)
    }

    /// Decodes the error of a run interruption sample with context `context_index` and
    /// updates the context; a mapped value out of range, or an update that would pass
    /// the context bound, is `InvalidData`.
    fn decode_interruption_error(&mut self, context_index: usize) -> (r: Result<i32, JpeglsError>)
        requires
            old(self).wf(),
            context_index < 2,
            old(self).run_index@.len() > 0,
        ensures
            final(self).wf(),
            final(self).same_setup(old(self)),
            final(self).regular_mode_contexts@ == old(self).regular_mode_contexts@,
            final(self).run_index@ == old(self).run_index@,
            old(self).position <= final(self).position,
            r matches Ok(e) ==> -131073 <= e <= 131073,
            r is Err ==> r == Err::<i32, JpeglsError>(JpeglsError::InvalidData),
            r matches Ok(e) ==> interruption_decoded(
                old(self).run_mode_contexts@[context_index as int],
                final(self).run_mode_contexts@[context_index as int],
                e as int,
                old(self).reset_threshold as int,
            ),
            r is Ok ==> forall|i: int|
                #![trigger final(self).run_mode_contexts@[i]]
                0 <= i < final(self).run_mode_contexts@.len() && i != context_index ==> final(self).run_mode_contexts@[i]
                    == old(self).run_mode_contexts@[i],
    {
        let mut ctx = self.run_mode_contexts[context_index];
        let k = ctx.compute_golomb_coding_parameter();
        let ri_type = ctx.run_interruption_type();
        let jv = j(self.run_index[0]);
        let run_limit = self.limit - jv - 1;
        let e_mapped = self.decode_mapped_error_value_with_limit(k, run_limit)?;
        if e_mapped < 0 || e_mapped > 262144 {
            return Err(JpeglsError::InvalidData);
        }
        let temp = e_mapped + ri_type;
        let error_value = ctx.decode_error_value(temp, k);
        if ctx.a() as i64 + ((e_mapped + 1 - ri_type) / 2) as i64 >= 16777216i64 {
            return Err(JpeglsError::InvalidData);
        }
        let reset = self.reset_threshold;
        let ghost ctx0 = ctx;
        ctx.update_variables(error_value, e_mapped, reset);
        self.run_mode_contexts.set(context_index, ctx);
        proof {
            vstd::arithmetic::power2::lemma2_to64();
            let p0 = vstd::arithmetic::power2::pow2(0int as nat);
            assert(ctx0.spec_n() * p0 == ctx0.spec_n()) by (nonlinear_arith)
                requires
                    p0 == 1,
            ;
            if k != 0 {
                assert(ctx0.spec_n() * vstd::arithmetic::power2::pow2(0int as nat) < crate::jpegls::run_mode_context::spec_golomb_temp(
                    ctx0.spec_a(),
                    ctx0.spec_n(),
                    ctx0.spec_ri(),
                ));
            }
            let em = e_mapped as int;
            assert(error_value == ctx0.unmapped_interruption_error(em));
            assert(ctx0 == old(self).run_mode_contexts@[context_index as int]);
            assert(reset == old(self).reset_threshold);
            assert(ctx0.can_update(em));
            assert(0 <= em <= 262144 && error_value == ctx0.unmapped_interruption_error(em) && ctx0.run_updated_by(
                self.run_mode_contexts@[context_index as int],
                error_value as int,
                em,
                old(self).reset_threshold as int,
            ) && ctx0.can_update(em));
            assert(interruption_decoded(
                old(self).run_mode_contexts@[context_index as int],
                self.run_mode_contexts@[context_index as int],
                error_value as int,
                old(self).reset_threshold as int,
            ));
            assert(ctx0.run_updated_by(self.run_mode_contexts@[context_index as int], error_value as int, em, reset as int));
        }
        Ok(error_value)
    }

    /// Decodes a run interruption sample with neighbors `ra` and `rb` (A.7.2): context 1
    /// when they are within NEAR (rebuilt from `ra`), else context 0 (rebuilt from `rb`
    /// in the direction of `rb - ra`).
    fn decode_run_interruption_pixel(&mut self, ra: i32, rb: i32, sample_max: i32) -> (r: Result<i32, JpeglsError>)
        requires
            old(self).wf(),
            0 <= ra <= 65535,
            0 <= rb <= 65535,
            sample_max == 255 || sample_max == 65535,
            old(self).run_index@.len() > 0,
        ensures
            final(self).wf(),
            final(self).same_setup(old(self)),
            final(self).regular_mode_contexts@ == old(self).regular_mode_contexts@,
            final(self).run_index@ == old(self).run_index@,
            old(self).position <= final(self).position,
            r matches Ok(v) ==> 0 <= v <= sample_max,
            r is Err ==> r == Err::<i32, JpeglsError>(JpeglsError::InvalidData),
            r matches Ok(v) ==> {
                let near = old(self).coding_parameters.near_lossless as int;
                let close = (if ra - rb < 0 { rb - ra } else { ra - rb }) <= near;
                let ci: int = if close { 1 } else { 0 };
                interruption_sample(
                    old(self).run_mode_contexts@[ci],
                    final(self).run_mode_contexts@[ci],
                    if close { ra as int } else { rb as int },
                    if close { 1 } else { crate::jpegls::traits::spec_bit_wise_sign(rb - ra) },
                    sample_max as int,
                    old(self).reset_threshold as int,
                    v as int,
                )
            },
    {
        let near = self.coding_parameters.near_lossless;
        let d = ra - rb;
        let ad = if d < 0 { -d } else { d };
        if ad <= near {
            let error_value = self.decode_interruption_error(1)?;
            let v = compute_reconstructed_sample(ra, error_value, sample_max);
            proof {
                assert(interruption_decoded(
                    old(self).run_mode_contexts@[1],
                    self.run_mode_contexts@[1],
                    error_value as int,
                    old(self).reset_threshold as int,
                ));
                assert(ra + 1 * error_value == ra + error_value);
            }
            Ok(v)
        } else {
            let sign = bit_wise_sign(rb - ra);
            let error_value = self.decode_interruption_error(0)?;
            let scaled = if sign < 0 { -error_value } else if sign == 0 { 0 } else { error_value };
            let v = compute_reconstructed_sample(rb, scaled, sample_max);
            proof {
                assert(interruption_decoded(
                    old(self).run_mode_contexts@[0],
                    self.run_mode_contexts@[0],
                    error_value as int,
                    old(self).reset_threshold as int,
                ));
                assert(scaled == sign * error_value);
            }
            Ok(v)
        }
    }

    /// Decodes a run interruption sample of a sample-interleaved scan: always context 0,
    /// rebuilt from `rb` in the direction of `rb - ra` (up when equal).
    fn decode_interleaved_interruption_component(&mut self, ra: i32, rb: i32, sample_max: i32) -> (r: Result<
        i32,
        JpeglsError,
    >)
        requires
            old(self).wf(),
            0 <= ra <= 65535,
            0 <= rb <= 65535,
            sample_max == 255 || sample_max == 65535,
            old(self).run_index@.len() > 0,
        ensures
            final(self).wf(),
            final(self).same_setup(old(self)),
            final(self).regular_mode_contexts@ == old(self).regular_mode_contexts@,
            final(self).run_index@ == old(self).run_index@,
            old(self).position <= final(self).position,
            r matches Ok(v) ==> 0 <= v <= sample_max,
            r is Err ==> r == Err::<i32, JpeglsError>(JpeglsError::InvalidData),
            r matches Ok(v) ==> interruption_sample(
                old(self).run_mode_contexts@[0],
                final(self).run_mode_contexts@[0],
                rb as int,
                if rb - ra >= 0 { 1 } else { -1 },
                sample_max as int,
                old(self).reset_threshold as int,
                v as int,
            ),
    {
        let sign: i32 = if rb - ra >= 0 { 1 } else { -1 };
        let error_value = self.decode_interruption_error(0)?;
        let v = compute_reconstructed_sample(rb, error_value * sign, sample_max);
        proof {
            assert(interruption_decoded(
                old(self).run_mode_contexts@[0],
                self.run_mode_contexts@[0],
                error_value as int,
                old(self).reset_threshold as int,
            ));
            assert(error_value * sign == sign * error_value);
        }
        Ok(v)
    }

    /// Copies `count` pixels from pixel `from` on, each sample taking the value of the
    /// sample on its left.
    fn repeat_left(curr_line: &mut Vec<i32>, from: usize, count: usize, width: usize, comps: usize)
        requires
            dline_ok(old(curr_line)@, width as int, comps as int),
            from + count <= width,
            (width + 2) * comps <= usize::MAX,
        ensures
            dline_ok(final(curr_line)@, width as int, comps as int),
            ({
                let base = (from + 1) * comps;
                &&& forall|u: int|
                    #![trigger final(curr_line)@[base + u]]
                    0 <= u < count * comps ==> final(curr_line)@[base + u] == old(curr_line)@[from * comps + u % (
                    comps as int)]
                &&& forall|j: int|
                    #![trigger final(curr_line)@[j]]
                    0 <= j < final(curr_line)@.len() && !(base <= j < base + count * comps) ==> final(curr_line)@[j]
                        == old(curr_line)@[j]
            }),
    {
        let ghost orig = curr_line@;
        let ghost base: int = (from + 1) * comps;
        assert((from + 1) * comps == from * comps + comps) by (nonlinear_arith);
        let mut i: usize = 0;
        while i < count
            invariant
                i <= count,
                from + count <= width,
                (width + 2) * comps <= usize::MAX,
                dline_ok(curr_line@, width as int, comps as int),
                orig == old(curr_line)@,
                base == (from + 1) * comps,
                base == from * comps + comps,
                forall|u: int|
                    0 <= u < i * comps ==> #[trigger] curr_line@[base + u] == orig[from * comps + u % (comps as int)],
                forall|j: int|
                    0 <= j < curr_line@.len() && !(base <= j < base + i * comps) ==> #[trigger] curr_line@[j] == orig[j],
            decreases count - i,
        {
            let mut c: usize = 0;
            while c < comps
                invariant
                    c <= comps,
                    i < count,
                    from + count <= width,
                    (width + 2) * comps <= usize::MAX,
                    dline_ok(curr_line@, width as int, comps as int),
                    orig == old(curr_line)@,
                    base == (from + 1) * comps,
                    base == from * comps + comps,
                    forall|u: int|
                        0 <= u < i * comps + c ==> #[trigger] curr_line@[base + u] == orig[from * comps + u % (
                        comps as int)],
                    forall|j: int|
                        0 <= j < curr_line@.len() && !(base <= j < base + i * comps + c) ==> #[trigger] curr_line@[j]
                            == orig[j],
                decreases comps - c,
            {
                proof {
                    lemma_dline_index((from + i + 1) as int, c as int, width as int, comps as int);
                    lemma_dline_index((from + i) as int, c as int, width as int, comps as int);
                    assert((from + i + 1) * comps == base + i * comps) by (nonlinear_arith)
                        requires
                            base == (from + 1) * comps,
                    ;
                }
                let px = comps + (from + i) * comps;
                let v = curr_line[px - comps + c];
                proof {
                    let t = i * comps + c;
                    assert(px + c == base + t);
                    vstd::arithmetic::div_mod::lemma_fundamental_div_mod_converse(t as int, comps as int, i as int, c as int);
                    if i > 0 {
                        assert((i - 1) * comps == i * comps - comps) by (nonlinear_arith);
                        vstd::arithmetic::div_mod::lemma_fundamental_div_mod_converse(
                            t - comps,
                            comps as int,
                            i - 1,
                            c as int,
                        );
                    }
                    if i == 0 {
                        assert(px - comps + c == from * comps + c);
                        assert(c as int % comps as int == c) by (nonlinear_arith)
                            requires
                                0 <= c < comps,
                        ;
                        assert(v == orig[from * comps + c]);
                    } else {
                        assert(px - comps + c == base + (t - comps));
                        assert(0 <= t - comps < i * comps + c) by (nonlinear_arith)
                            requires
                                t == i * comps + c,
                                i >= 1,
                                0 <= c < comps,
                        ;
                        assert(v == orig[from * comps + (t - comps) % (comps as int)]);
                    }
                    assert(v == orig[from * comps + (t as int) % (comps as int)]);
                }
                curr_line.set(px + c, v);
                c = c + 1;
            }
            assert((i + 1) * comps == i * comps + comps) by (nonlinear_arith);
            i = i + 1;
        }
    }

    /// Decodes a run from pixel `start` (A.7): one bits each give a full segment of
    /// `2^J[RUNindex]` pixels (the index moving up), a zero bit ends the run with a
    /// remainder of `J[RUNindex]` bits; run pixels repeat their left neighbor. A run that
    /// stops before the end of the line is followed by an interruption pixel, and the
    /// index moves down. Gives the number of pixels decoded.
    fn decode_run_mode_interleaved(
        &mut self,
        start: usize,
        prev_line: &Vec<i32>,
        curr_line: &mut Vec<i32>,
        width: usize,
        comps: usize,
        sample_max: i32,
    ) -> (r: Result<usize, JpeglsError>)
        requires
            old(self).wf(),
            comps == coded_components(old(self).frame_info, old(self).coding_parameters),
            start < width,
            dline_ok(prev_line@, width as int, comps as int),
            dline_ok(old(curr_line)@, width as int, comps as int),
            (width + 2) * comps <= usize::MAX,
            sample_max == 255 || sample_max == 65535,
        ensures
            final(self).wf(),
            final(self).same_setup(old(self)),
            old(self).position <= final(self).position,
            dline_ok(final(curr_line)@, width as int, comps as int),
            r matches Ok(n) ==> 1 <= n <= width - start,
            r is Err ==> r == Err::<usize, JpeglsError>(JpeglsError::InvalidData),
            r matches Ok(n) ==> forall|u: int|
                #![trigger final(curr_line)@[(start + 1) * comps + u]]
                0 <= u < (n - 1) * comps ==> final(curr_line)@[(start + 1) * comps + u] == old(curr_line)@[start * comps
                    + u % (comps as int)],
    {
        let pixel_count = width - start;
        let ghost orig = curr_line@;
        let ghost base: int = (start + 1) * comps;
        assert((start + 1) * comps == start * comps + comps) by (nonlinear_arith);
        assert(comps > 0);
        let mut run_length: usize = 0;
        loop
            invariant_except_break
                run_length < pixel_count,
            invariant
                self.wf(),
                self.same_setup(old(self)),
                old(self).position <= self.position,
                comps == coded_components(self.frame_info, self.coding_parameters),
                start < width,
                pixel_count == width - start,
                run_length <= pixel_count,
                dline_ok(curr_line@, width as int, comps as int),
                (width + 2) * comps <= usize::MAX,
                orig == old(curr_line)@,
                base == (start + 1) * comps,
                base == start * comps + comps,
                comps > 0,
                run_prefix_ok(curr_line@, orig, start as int, comps as int, run_length as int),
            decreases pixel_count - run_length,
        {
            let jv = j(self.run_index[0]);
            let bit = self.read_bits(1)?;
            if bit == 1 {
                let max_run: usize = 1usize << (jv as usize);
                proof {
                    lemma_one_shl_usize(jv as usize);
                    lemma_pow2_small(jv as nat);
                }
                let rest = pixel_count - run_length;
                let count = if max_run < rest { max_run } else { rest };
                let ghost before = curr_line@;
                proof {
                    assert((start + run_length + 1) * comps + count * comps <= (width + 2) * comps) by (nonlinear_arith)
                        requires
                            start + run_length + count <= width,
                            comps > 0,
                    ;
                }
                Self::repeat_left(curr_line, start + run_length, count, width, comps);
                proof {
                    lemma_run_extend(before, curr_line@, orig, start as int, comps as int, run_length as int, count as int);
                }
                run_length = run_length + count;
                if count == max_run && self.run_index[0] < 31 {
                    let v = self.run_index[0] + 1;
                    self.run_index.set(0, v);
                }
                if run_length == pixel_count {
                    break;
                }
            } else {
                let remainder: usize = if jv > 0 {
                    self.read_bits(jv)? as usize
                } else {
                    0
                };
                let rest = pixel_count - run_length;
                let count = if remainder < rest { remainder } else { rest };
                let ghost before = curr_line@;
                proof {
                    assert((start + run_length + 1) * comps + count * comps <= (width + 2) * comps) by (nonlinear_arith)
                        requires
                            start + run_length + count <= width,
                            comps > 0,
                    ;
                }
                Self::repeat_left(curr_line, start + run_length, count, width, comps);
                proof {
                    lemma_run_extend(before, curr_line@, orig, start as int, comps as int, run_length as int, count as int);
                }
                run_length = run_length + count;
                break;
            }
        }
        let ghost run_done = run_length as int;
        if run_length < pixel_count {
            let p = start + run_length;
            let sample_interleaved = self.coding_parameters.interleave_mode == InterleaveMode::Sample;
            let mut c: usize = 0;
            while c < comps
                invariant
                    self.wf(),
                    self.same_setup(old(self)),
                    old(self).position <= self.position,
                    comps == coded_components(self.frame_info, self.coding_parameters),
                    c <= comps,
                    p < width,
                    dline_ok(prev_line@, width as int, comps as int),
                    dline_ok(curr_line@, width as int, comps as int),
                    (width + 2) * comps <= usize::MAX,
                    sample_max == 255 || sample_max == 65535,
                    p == start + run_length,
                    orig == old(curr_line)@,
                    base == (start + 1) * comps,
                    base == start * comps + comps,
                    comps > 0,
                    run_prefix_ok(curr_line@, orig, start as int, comps as int, run_length as int),
                decreases comps - c,
            {
                proof {
                    lemma_dline_index((p + 1) as int, c as int, width as int, comps as int);
                    lemma_dline_index(p as int, c as int, width as int, comps as int);
                }
                let idx = comps + p * comps + c;
                let ra = curr_line[idx - comps];
                let rb = prev_line[idx];
                let val = if sample_interleaved {
                    self.decode_interleaved_interruption_component(ra, rb, sample_max)?
                } else {
                    self.decode_run_interruption_pixel(ra, rb, sample_max)?
                };
                let ghost before = curr_line@;
                curr_line.set(idx, val);
                proof {
                    assert(idx == base + run_length * comps + c) by {
                        assert((p + 1) * comps == base + run_length * comps) by (nonlinear_arith)
                            requires
                                base == (start + 1) * comps,
                                p == start + run_length,
                        ;
                    }
                    assert forall|u: int|
                        #![trigger curr_line@[base + u]]
                        0 <= u < run_length * comps implies curr_line@[base + u] == orig[start * comps + u % (comps as int)] by {
                        assert(before[base + u] == orig[start * comps + u % (comps as int)]);
                    }
                }
                c = c + 1;
            }
            if self.run_index[0] > 0 {
                let v = self.run_index[0] - 1;
                self.run_index.set(0, v);
            }
            run_length = run_length + 1;
        }
        proof {
            assert(run_length - 1 <= run_done);
            assert((run_length - 1) * comps <= run_done * comps) by (nonlinear_arith)
                requires
                    run_length - 1 <= run_done,
                    comps > 0,
            ;
            assert forall|u: int|
                #![trigger curr_line@[(start + 1) * comps + u]]
                0 <= u < (run_length - 1) * comps implies curr_line@[(start + 1) * comps + u] == orig[start * comps + u % (
                comps as int)] by {
                assert(run_prefix_ok(curr_line@, orig, start as int, comps as int, run_done));
            }
        }
        Ok(run_length)
    }

    /// Decodes one line (A.3): for each pixel, the gradients of each component give its
    /// context; when a context is not 0 the components are decoded in regular mode,
    /// else a run starts there.
    fn decode_sample_line(
        &mut self,
        prev_line: &Vec<i32>,
        curr_line: &mut Vec<i32>,
        width: usize,
        comps: usize,
        sample_max: i32,
    ) -> (r: Result<(), JpeglsError>)
        requires
            old(self).wf(),
            comps == coded_components(old(self).frame_info, old(self).coding_parameters),
            dline_ok(prev_line@, width as int, comps as int),
            dline_ok(old(curr_line)@, width as int, comps as int),
            (width + 2) * comps <= usize::MAX,
            sample_max == 255 || sample_max == 65535,
        ensures
            final(self).wf(),
            final(self).same_setup(old(self)),
            old(self).position <= final(self).position,
            dline_ok(final(curr_line)@, width as int, comps as int),
            r is Err ==> r == Err::<(), JpeglsError>(JpeglsError::InvalidData),
    {
        let mut rb: Vec<i32> = Vec::new();
        let mut rd: Vec<i32> = Vec::new();
        let mut c: usize = 0;
        while c < comps
            invariant
                c <= comps,
                rb@.len() == c,
                rd@.len() == c,
                dline_ok(prev_line@, width as int, comps as int),
                (width + 2) * comps <= usize::MAX,
                forall|i: int| 0 <= i < c ==> 0 <= #[trigger] rb@[i] <= 65535,
                forall|i: int| 0 <= i < c ==> 0 <= #[trigger] rd@[i] <= 65535,
            decreases comps - c,
        {
            proof {
                lemma_dline_index(1, c as int, width as int, comps as int);
                lemma_dline_index(0, c as int, width as int, comps as int);
            }
            rb.push(prev_line[c]);
            rd.push(prev_line[comps + c]);
            c = c + 1;
        }
        let mut pixel: usize = 0;
        while pixel < width
            invariant
                self.wf(),
                self.same_setup(old(self)),
                old(self).position <= self.position,
                comps == coded_components(self.frame_info, self.coding_parameters),
                pixel <= width,
                dline_ok(prev_line@, width as int, comps as int),
                dline_ok(curr_line@, width as int, comps as int),
                (width + 2) * comps <= usize::MAX,
                sample_max == 255 || sample_max == 65535,
                rb@.len() == comps,
                rd@.len() == comps,
                forall|i: int| 0 <= i < comps ==> 0 <= #[trigger] rb@[i] <= 65535,
                forall|i: int| 0 <= i < comps ==> 0 <= #[trigger] rd@[i] <= 65535,
            decreases width - pixel,
        {
            let is_last = pixel == width - 1;
            let mut all_qs_zero = true;
            let mut qs_v: Vec<i32> = Vec::new();
            let mut pred_v: Vec<i32> = Vec::new();
            let mut c: usize = 0;
            while c < comps
                invariant
                    self.wf(),
                    c <= comps,
                    pixel < width,
                    is_last == (pixel == width - 1),
                    dline_ok(prev_line@, width as int, comps as int),
                    dline_ok(curr_line@, width as int, comps as int),
                    (width + 2) * comps <= usize::MAX,
                    rb@.len() == comps,
                    rd@.len() == comps,
                    forall|i: int| 0 <= i < comps ==> 0 <= #[trigger] rb@[i] <= 65535,
                    forall|i: int| 0 <= i < comps ==> 0 <= #[trigger] rd@[i] <= 65535,
                    qs_v@.len() == c,
                    pred_v@.len() == c,
                    forall|i: int| 0 <= i < c ==> -364 <= #[trigger] qs_v@[i] <= 364,
                    forall|i: int| 0 <= i < c ==> 0 <= #[trigger] pred_v@[i] <= 65535,
                decreases comps - c,
            {
                proof {
                    lemma_dline_index((pixel + 2) as int, c as int, width as int, comps as int);
                    lemma_dline_index((pixel + 1) as int, c as int, width as int, comps as int);
                    lemma_dline_index(pixel as int, c as int, width as int, comps as int);
                }
                let idx = comps + pixel * comps + c;
                let ra = curr_line[idx - comps];
                let rc = rb[c];
                let new_rb = rd[c];
                rb.set(c, new_rb);
                let new_rd = if is_last { new_rb } else { prev_line[idx + comps] };
                rd.set(c, new_rd);
                let q1 = self.quantize_gradient(new_rd - new_rb);
                let q2 = self.quantize_gradient(new_rb - rc);
                let q3 = self.quantize_gradient(rc - ra);
                let qs = self.compute_context_id(q1, q2, q3);
                if qs != 0 {
                    all_qs_zero = false;
                }
                qs_v.push(qs);
                pred_v.push(self.compute_predicted_value(ra, new_rb, rc));
                c = c + 1;
            }
            if !all_qs_zero {
                let mut c: usize = 0;
                while c < comps
                    invariant
                        self.wf(),
                        self.same_setup(old(self)),
                        old(self).position <= self.position,
                        comps == coded_components(self.frame_info, self.coding_parameters),
                        c <= comps,
                        pixel < width,
                        dline_ok(curr_line@, width as int, comps as int),
                        (width + 2) * comps <= usize::MAX,
                        sample_max == 255 || sample_max == 65535,
                        qs_v@.len() == comps,
                        pred_v@.len() == comps,
                        forall|i: int| 0 <= i < comps ==> -364 <= #[trigger] qs_v@[i] <= 364,
                        forall|i: int| 0 <= i < comps ==> 0 <= #[trigger] pred_v@[i] <= 65535,
                    decreases comps - c,
                {
                    proof {
                        lemma_dline_index((pixel + 1) as int, c as int, width as int, comps as int);
                        lemma_dline_index(pixel as int, c as int, width as int, comps as int);
                    }
                    let v = self.decode_regular(qs_v[c], pred_v[c], sample_max)?;
                    curr_line.set(comps + pixel * comps + c, v);
                    c = c + 1;
                }
                pixel = pixel + 1;
            } else {
                let n = self.decode_run_mode_interleaved(pixel, prev_line, curr_line, width, comps, sample_max)?;
                pixel = pixel + n;
                if pixel < width {
                    let mut c: usize = 0;
                    while c < comps
                        invariant
                            c <= comps,
                            pixel < width,
                            dline_ok(prev_line@, width as int, comps as int),
                            (width + 2) * comps <= usize::MAX,
                            rb@.len() == comps,
                            rd@.len() == comps,
                            forall|i: int| 0 <= i < comps ==> 0 <= #[trigger] rb@[i] <= 65535,
                            forall|i: int| 0 <= i < comps ==> 0 <= #[trigger] rd@[i] <= 65535,
                        decreases comps - c,
                    {
                        proof {
                            lemma_dline_index(pixel as int, c as int, width as int, comps as int);
                            lemma_dline_index((pixel + 1) as int, c as int, width as int, comps as int);
                        }
                        rb.set(c, prev_line[pixel * comps + c]);
                        rd.set(c, prev_line[(pixel + 1) * comps + c]);
                        c = c + 1;
                    }
                }
            }
        }
        Ok(())
    }

    /// Decodes the lines of the scan into `destination`, line `l` at `l * stride`, each
    /// sample in `sample_bytes` bytes (16-bit samples little-endian). Above the first
    /// line all samples are 0; each line starts after a boundary sample repeating the
    /// first pixel of the line above, whose last pixel is repeated past its end. A line
    /// that does not fit in `destination` is `InvalidData`.
    fn decode_lines(&mut self, destination: &mut [u8], stride: usize, sample_bytes: usize, sample_max: i32) -> (r:
        Result<(), JpeglsError>)
        requires
            old(self).wf(),
            sample_bytes == 1 && sample_max == 255 || sample_bytes == 2 && sample_max == 65535,
        ensures
            final(self).wf(),
            final(self).same_setup(old(self)),
            old(self).position <= final(self).position,
            final(destination)@.len() == old(destination)@.len(),
            r is Err ==> r == Err::<(), JpeglsError>(JpeglsError::InvalidData),
    {
        let width = self.frame_info.width as usize;
        let height = self.frame_info.height as usize;
        let comps: usize = if self.coding_parameters.interleave_mode == InterleaveMode::NotInterleaved {
            1
        } else {
            self.frame_info.component_count as usize
        };
        let buffer_width = match width.checked_add(2) {
            Some(w2) => match w2.checked_mul(comps) {
                Some(b) => b,
                None => {
                    return Err(JpeglsError::InvalidData);
                },
            },
            None => {
                return Err(JpeglsError::InvalidData);
            },
        };
        proof {
            lemma_dline_index(0, 0, width as int, comps as int);
        }
        let row_bytes: usize = match (width * comps).checked_mul(sample_bytes) {
            Some(b) => b,
            None => {
                return Err(JpeglsError::InvalidData);
            },
        };
        let mut prev: Vec<i32> = Vec::new();
        let mut curr: Vec<i32> = Vec::new();
        let mut i: usize = 0;
        while i < buffer_width
            invariant
                i <= buffer_width,
                prev@.len() == i,
                curr@.len() == i,
                forall|k: int| 0 <= k < i ==> #[trigger] prev@[k] == 0,
                forall|k: int| 0 <= k < i ==> #[trigger] curr@[k] == 0,
            decreases buffer_width - i,
        {
            prev.push(0);
            curr.push(0);
            i = i + 1;
        }
        let mut line: usize = 0;
        while line < height
            invariant
                self.wf(),
                self.same_setup(old(self)),
                old(self).position <= self.position,
                comps == coded_components(self.frame_info, self.coding_parameters),
                width == self.frame_info.width,
                height == self.frame_info.height,
                buffer_width == (width + 2) * comps,
                width + 2 <= usize::MAX,
                row_bytes == width * comps * sample_bytes,
                sample_bytes == 1 && sample_max == 255 || sample_bytes == 2 && sample_max == 65535,
                line <= height,
                destination@.len() == old(destination)@.len(),
                dline_ok(prev@, width as int, comps as int),
                dline_ok(curr@, width as int, comps as int),
            decreases height - line,
        {
            let mut c: usize = 0;
            while c < comps
                invariant
                    c <= comps,
                    comps >= 1,
                    width + 2 <= usize::MAX,
                    buffer_width == (width + 2) * comps,
                    dline_ok(prev@, width as int, comps as int),
                    dline_ok(curr@, width as int, comps as int),
                decreases comps - c,
            {
                proof {
                    lemma_dline_index(0, c as int, width as int, comps as int);
                    lemma_dline_index(1, c as int, width as int, comps as int);
                    lemma_dline_index(width as int, c as int, width as int, comps as int);
                    lemma_dline_index((width + 1) as int, c as int, width as int, comps as int);
                }
                curr.set(c, prev[comps + c]);
                let last = prev[width * comps + c];
                prev.set((width + 1) * comps + c, last);
                c = c + 1;
            }
            self.decode_sample_line(&prev, &mut curr, width, comps, sample_max)?;
            let dest_start = match line.checked_mul(stride) {
                Some(v) => v,
                None => {
                    return Err(JpeglsError::InvalidData);
                },
            };
            let dest_end = match dest_start.checked_add(row_bytes) {
                Some(v) => v,
                None => {
                    return Err(JpeglsError::InvalidData);
                },
            };
            if dest_end > destination.len() {
                return Err(JpeglsError::InvalidData);
            }
            proof {
                lemma_dline_index(0, 0, width as int, comps as int);
            }
            let count = width * comps;
            let dlen = destination.len();
            let mut k: usize = 0;
            while k < count
                invariant
                    dlen == destination@.len(),
                    k <= count,
                    count == width * comps,
                    buffer_width == (width + 2) * comps,
                    buffer_width == count + 2 * comps,
                    dest_start + count * sample_bytes <= destination@.len(),
                    destination@.len() == old(destination)@.len(),
                    sample_bytes == 1 && sample_max == 255 || sample_bytes == 2 && sample_max == 65535,
                    dline_ok(curr@, width as int, comps as int),
                decreases count - k,
            {
                let v = curr[comps + k];
                if sample_bytes == 1 {
                    assert(count * sample_bytes == count);
                    destination[dest_start + k] = (v & 0xFF) as u8;
                } else {
                    assert(count * sample_bytes == count * 2);
                    assert(dest_start + 2 * k + 1 < dest_start + count * 2) by (nonlinear_arith)
                        requires
                            k < count,
                    ;
                    destination[dest_start + 2 * k] = (v & 0xFF) as u8;
                    destination[dest_start + 2 * k + 1] = ((v >> 8u32) & 0xFF) as u8;
                }
                k = k + 1;
            }
            std::mem::swap(&mut prev, &mut curr);
            line = line + 1;
        }
        Ok(())
    }

    /// Nothing is left to do at the end of a scan.
    fn end_scan(&mut self) -> (r: Result<(), JpeglsError>)
        ensures
            *final(self) == *old(self),
            r is Ok,
    {
        Ok(())
    }

    /// Decodes the scan into `destination` (line `l` at `l * stride`; 8-bit samples up
    /// to 8 bits per sample, else 16-bit little-endian ones) and gives the number of
    /// bytes read from the source.
    pub fn decode_scan(&mut self, destination: &mut [u8], stride: usize) -> (r: Result<usize, JpeglsError>)
        requires
            old(self).wf(),
        ensures
            final(self).wf(),
            final(self).same_setup(old(self)),
            final(destination)@.len() == old(destination)@.len(),
            r matches Ok(n) ==> n == final(self).position && n <= final(self).source@.len(),
            r is Err ==> r == Err::<usize, JpeglsError>(JpeglsError::InvalidData) || r == Err::<usize, JpeglsError>(
                JpeglsError::ParameterValueNotSupported,
            ),
    {
        let bit_depth = self.frame_info.bits_per_sample;
        if bit_depth <= 8 {
            self.decode_lines(destination, stride, 1, 255)?;
        } else if bit_depth <= 16 {
            self.decode_lines(destination, stride, 2, 65535)?;
        } else {
            return Err(JpeglsError::ParameterValueNotSupported);
        }
        self.end_scan()?;
        Ok(self.position)
    }
}

} // verus!
