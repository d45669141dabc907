//! The JPEG-LS scan encoder: context modeling, prediction, run mode and Golomb coding
//! of the samples of one scan (ISO/IEC 14495-1, Annex A).
use crate::constants::{j, spec_j};
use crate::error::JpeglsError;
use crate::jpeg_marker_code::JPEG_MARKER_START_BYTE;
use crate::jpegls::coding_parameters::{CodingParameters, JpeglsPcParameters};
use crate::jpegls::regular_mode_context::{context_bound, RegularModeContext};
use crate::jpegls::run_mode_context::RunModeContext;
use crate::jpegls::traits::{
    apply_sign, apply_sign_for_index, bit_wise_sign, compute_reconstructed_sample, correct_prediction, is_near,
    spec_apply_sign, spec_bit_wise_sign, spec_is_near, spec_correct_prediction, JpeglsSample,
};
use crate::jpegls::InterleaveMode;
use crate::FrameInfo;
use crate::bits::{lemma_and_bounded_i32, lemma_one_shl_i32, lemma_one_shl_u32, lemma_one_shl_usize, lemma_pow2_small, lemma_sign_xor, lemma_xor_correction};
use vstd::prelude::*;

verus! {

/// Number of regular mode contexts of a component.
pub open spec fn regular_context_count() -> int {
    365
}

/// The parameters a scan can be coded with: sample depth 2 to 16, component count 1 to
/// 255, a maximum sample value, NEAR, thresholds, RESET, LIMIT and qbpp in the ranges
/// the standard gives them.
pub open spec fn scan_params_ok(frame_info: FrameInfo, pc: JpeglsPcParameters, coding: CodingParameters) -> bool {
    &&& 2 <= frame_info.bits_per_sample <= 16
    &&& 1 <= frame_info.component_count <= 255
    &&& 1 <= pc.maximum_sample_value <= 65535
    &&& 0 <= coding.near_lossless <= 255
    &&& 0 <= pc.threshold1 <= 65535
    &&& 0 <= pc.threshold2 <= 65535
    &&& 0 <= pc.threshold3 <= 65535
    &&& 2 <= pc.reset_value <= 65535
    &&& 0 <= coding.limit <= 65535
    &&& 0 <= coding.quantized_bits_per_sample <= 16
}

/// Number of components coded together: one when not interleaved, else all.
pub open spec fn coded_components(frame_info: FrameInfo, coding: CodingParameters) -> int {
    if coding.interleave_mode == InterleaveMode::NotInterleaved {
        1
    } else {
        frame_info.component_count as int
    }
}

/// Quantization of a local gradient into one of nine regions (A.3.3).
pub open spec fn spec_quantize_gradient(di: int, t1: int, t2: int, t3: int, near: int) -> int {
    if di <= -t3 {
        -4
    } else if di <= -t2 {
        -3
    } else if di <= -t1 {
        -2
    } else if di < -near {
        -1
    } else if di <= near {
        0
    } else if di < t1 {
        1
    } else if di < t2 {
        2
    } else if di < t3 {
        3
    } else {
        4
    }
}

/// The context of three quantized gradients: `(q1 * 9 + q2) * 9 + q3`.
pub open spec fn spec_context_id(q1: int, q2: int, q3: int) -> int {
    (q1 * 9 + q2) * 9 + q3
}

/// The context number codes the three gradient regions as base-9 digits (A.3.4): offset
/// by 364 it lies in `0..729`, with `Q1` (from `Rd - Rb`) the most significant digit,
/// `Q2` (from `Rb - Rc`) the middle one and `Q3` (from `Rc - Ra`) the least.
pub proof fn lemma_context_id_digits(q1: int, q2: int, q3: int)
    requires
        -4 <= q1 <= 4,
        -4 <= q2 <= 4,
        -4 <= q3 <= 4,
    ensures
        0 <= spec_context_id(q1, q2, q3) + 364 < 729,
        (spec_context_id(q1, q2, q3) + 364) / 81 == q1 + 4,
        ((spec_context_id(q1, q2, q3) + 364) / 9) % 9 == q2 + 4,
        (spec_context_id(q1, q2, q3) + 364) % 9 == q3 + 4,
{
    let c = spec_context_id(q1, q2, q3) + 364;
    let t = 9 * (q1 + 4) + (q2 + 4);
    assert(c == 81 * (q1 + 4) + 9 * (q2 + 4) + (q3 + 4));
    assert(c == t * 9 + (q3 + 4));
    vstd::arithmetic::div_mod::lemma_fundamental_div_mod_converse(c, 9, t, q3 + 4);
    vstd::arithmetic::div_mod::lemma_fundamental_div_mod_converse(t, 9, q1 + 4, q2 + 4);
    vstd::arithmetic::div_mod::lemma_fundamental_div_mod_converse(c, 81, q1 + 4, 9 * (q2 + 4) + (q3 + 4));
}

/// The median edge detecting predictor of A.4.1, clamped to `0..=max_val`.
pub open spec fn spec_predicted_value(ra: int, rb: int, rc: int, max_val: int) -> int {
    let p = if rc >= (if ra > rb { ra } else { rb }) {
        if ra < rb { ra } else { rb }
    } else if rc <= (if ra < rb { ra } else { rb }) {
        if ra > rb { ra } else { rb }
    } else {
        ra + rb - rc
    };
    spec_correct_prediction(p, max_val)
}

/// Quantization of a prediction error for near-lossless coding (A.4.4).
pub open spec fn spec_quantize_error(e: int, near: int) -> int {
    if e > 0 {
        (e + near) / (2 * near + 1)
    } else {
        -((near - e) / (2 * near + 1))
    }
}

/// Reduction of an error modulo the range into `[-(range / 2), (range + 1) / 2)` (A.4.5).
/// The run index after coding a run of `run` samples from index `ri`: it moves up
/// (to at most 31) after each full segment of `2^J[ri]` samples.
pub open spec fn run_index_after(ri: int, run: int) -> int
    decreases run,
{
    if run < 0 || ri < 0 || ri >= 32 {
        ri
    } else {
        let seg = vstd::arithmetic::power2::pow2(crate::constants::spec_j(ri) as nat);
        if run < seg {
            ri
        } else {
            proof {
                vstd::arithmetic::power2::lemma_pow2_pos(crate::constants::spec_j(ri) as nat);
            }
            run_index_after(if ri < 31 { ri + 1 } else { ri }, run - seg)
        }
    }
}

/// The error value the regular mode codes for sample `x` (A.4, A.4.2): the prediction
/// corrected by `sign * C` and clamped, the signed difference quantized for NEAR and
/// reduced modulo the range.
pub open spec fn regular_error_value(x: int, predicted: int, c: int, sign: int, near: int, range: int, max: int) -> int {
    let pv = spec_correct_prediction(predicted + spec_apply_sign(c, sign), max);
    spec_modulo_range(spec_quantize_error(spec_apply_sign(x - pv, sign), near), range)
}

/// Every component of pixel `p` lies within NEAR of the same component of the pixel
/// left of `start` (the run's `Ra`).
pub open spec fn run_pixel_near(line: Seq<i32>, p: int, start: int, near: int, comps: int) -> bool {
    forall|c: int|
        0 <= c < comps ==> crate::jpegls::traits::spec_is_near(
            #[trigger] line[comps + p * comps + c] as int,
            line[start * comps + c] as int,
            near,
        )
}

/// The value a run interruption sample `x` is reconstructed to (A.7.2): predicted from
/// `Ra` when `Ra` and `Rb` lie within NEAR, else from `Rb` with the sign of `Rb - Ra`,
/// plus the quantized error reduced modulo the range, masked to the sample range.
pub open spec fn run_interruption_value(x: int, ra: int, rb: int, near: int, range: int, max: i32) -> int {
    if (if ra - rb < 0 { rb - ra } else { ra - rb }) <= near {
        (((ra + spec_modulo_range(spec_quantize_error(x - ra, near), range)) as i32) & max) as int
    } else {
        let sign = crate::jpegls::traits::spec_bit_wise_sign(rb - ra);
        (((rb + spec_modulo_range(spec_quantize_error((x - rb) * sign, near), range) * sign) as i32) & max) as int
    }
}

pub open spec fn spec_modulo_range(e: int, range: int) -> int {
    let e1 = if e < 0 { e + range } else { e };
    if e1 >= (range + 1) / 2 { e1 - range } else { e1 }
}

/// The mapped error value of A.5.2: `2e` for `e >= 0`, `-2e - 1` below.
pub open spec fn spec_map_error(e: int) -> int {
    if e >= 0 { 2 * e } else { -2 * e - 1 }
}

/// A line buffer of `width` samples of `comps` components, after `comps` boundary
/// samples, every value a 16-bit sample.
pub open spec fn line_ok(v: Seq<i32>, width: int, comps: int) -> bool {
    &&& v.len() == (width + 1) * comps
    &&& forall|i: int| 0 <= i < v.len() ==> 0 <= #[trigger] v[i] <= 65535
}

/// Sample `c` of pixel `p` sits at `comps + p * comps + c`, inside the line buffer.
pub proof fn lemma_line_index(p: int, c: int, width: int, comps: int)
    requires
        0 <= p < width,
        0 <= c < comps,
    ensures
        0 <= p * comps + c,
        comps + p * comps + c < (width + 1) * comps,
        p * comps + comps <= width * comps,
        (p + 1) * comps == p * comps + comps,
{
    assert((p + 1) * comps <= width * comps) by (nonlinear_arith)
        requires
            p + 1 <= width,
            comps >= 0,
    ;
    assert((p + 1) * comps == p * comps + comps) by (nonlinear_arith);
    assert((width + 1) * comps == width * comps + comps) by (nonlinear_arith);
    assert(p * comps >= 0) by (nonlinear_arith)
        requires
            p >= 0,
            comps >= 0,
    ;
}

/// Where the bits go: a 32-bit buffer filled from its top, with `free_bit_count`
/// bits free; full bytes leave it for the destination.
pub struct ScanEncoder<'a> {
    /// The frame being coded.
    pub frame_info: FrameInfo,
    /// Preset coding parameters.
    pub pc_parameters: JpeglsPcParameters,
    /// Coding parameters of the scan.
    pub coding_parameters: CodingParameters,
    /// Where the coded bytes go.
    pub destination: &'a mut [u8],
    /// Bytes written.
    pub position: usize,
    /// Bits not written yet, from the top.
    pub bit_buffer: u32,
    /// Free bits of `bit_buffer`.
    pub free_bit_count: i32,
    /// Whether the last byte written was 0xFF.
    pub is_ff_written: bool,
    /// Regular mode contexts of each component.
    pub regular_mode_contexts: Vec<Vec<RegularModeContext>>,
    /// The two run interruption contexts of each component.
    pub run_mode_contexts: Vec<Vec<RunModeContext>>,
    /// Run index of each component.
    pub run_index: Vec<usize>,
    /// Gradient threshold T1.
    pub t1: i32,
    /// Gradient threshold T2.
    pub t2: i32,
    /// Gradient threshold T3.
    pub t3: i32,
    /// RESET.
    pub reset_threshold: i32,
    /// Largest value of the sample type (255 or 65535).
    pub sample_max: i32,
}

impl<'a> ScanEncoder<'a> {
    /// The parameters are valid, the buffer is in shape, and each coded component has
    /// its 365 regular contexts and its two run contexts, valid for RESET, and a run
    /// index below 32.
    pub open spec fn wf(&self) -> bool {
        let n = coded_components(self.frame_info, self.coding_parameters);
        &&& scan_params_ok(self.frame_info, self.pc_parameters, self.coding_parameters)
        &&& self.t1 == self.pc_parameters.threshold1
        &&& self.t2 == self.pc_parameters.threshold2
        &&& self.t3 == self.pc_parameters.threshold3
        &&& self.reset_threshold == self.pc_parameters.reset_value
        &&& (self.sample_max == 255 || self.sample_max == 65535)
        &&& self.position <= self.destination@.len()
        &&& 0 <= self.free_bit_count <= 32
        &&& self.regular_mode_contexts@.len() == n
        &&& self.run_mode_contexts@.len() == n
        &&& self.run_index@.len() == n
        &&& forall|c: int|
            0 <= c < n ==> (#[trigger] self.regular_mode_contexts@[c])@.len() == regular_context_count()
                && forall|i: int|
                0 <= i < regular_context_count() ==> (#[trigger] self.regular_mode_contexts@[c]@[i]).wf(
                    self.reset_threshold as int,
                )
        &&& forall|c: int|
            0 <= c < n ==> (#[trigger] self.run_mode_contexts@[c])@.len() == 2 && self.run_mode_contexts@[c]@[0].wf(
                self.reset_threshold as int,
            ) && self.run_mode_contexts@[c]@[1].wf(self.reset_threshold as int)
                && self.run_mode_contexts@[c]@[0].spec_ri() == 0 && self.run_mode_contexts@[c]@[1].spec_ri() == 1
        &&& forall|c: int| 0 <= c < n ==> #[trigger] self.run_index@[c] < 32
    }

    /// Everything but the bit buffer, the output and the contexts is as in `other`.
    pub open spec fn same_setup(&self, other: &Self) -> bool {
        &&& self.frame_info == other.frame_info
        &&& self.pc_parameters == other.pc_parameters
        &&& self.coding_parameters == other.coding_parameters
        &&& self.t1 == other.t1
        &&& self.t2 == other.t2
        &&& self.t3 == other.t3
        &&& self.reset_threshold == other.reset_threshold
        &&& self.sample_max == other.sample_max
        &&& self.destination@.len() == other.destination@.len()
    }

    /// An encoder of a scan of `frame_info` into `destination`, with fresh contexts for
    /// each coded component (365 regular ones, and run interruption contexts of both
    /// types), run indexes 0 and an empty bit buffer. Samples are 8-bit up to 8 bits per
    /// sample, else 16-bit.
    pub fn new(
        frame_info: FrameInfo,
        pc_parameters: JpeglsPcParameters,
        coding_parameters: CodingParameters,
        destination: &'a mut [u8],
    ) -> (r: Self)
        requires
            scan_params_ok(frame_info, pc_parameters, coding_parameters),
        ensures
            r.wf(),
            r.frame_info == frame_info,
            r.pc_parameters == pc_parameters,
            r.coding_parameters == coding_parameters,
            r.destination@ == old(destination)@,
            r.position == 0,
            r.bit_buffer == 0,
            r.free_bit_count == 32,
            r.sample_max == if frame_info.bits_per_sample <= 8 { 255int } else { 65535int },
            forall|c: int|
                0 <= c < coded_components(frame_info, coding_parameters) ==> #[trigger] r.run_index@[c] == 0,
    {
        let range = pc_parameters.maximum_sample_value + 1;
        let num_components: usize = if coding_parameters.interleave_mode == InterleaveMode::NotInterleaved {
            1
        } else {
            frame_info.component_count as usize
        };
        let mut regular_mode_contexts: Vec<Vec<RegularModeContext>> = Vec::new();
        let mut run_mode_contexts: Vec<Vec<RunModeContext>> = Vec::new();
        let mut run_index: Vec<usize> = Vec::new();
        let reset = pc_parameters.reset_value;
        let mut c: usize = 0;
        while c < num_components
            invariant
                c <= num_components,
                0 <= range <= 65536,
                2 <= reset <= 65535,
                regular_mode_contexts@.len() == c,
                run_mode_contexts@.len() == c,
                run_index@.len() == c,
                forall|k: int|
                    0 <= k < c ==> (#[trigger] regular_mode_contexts@[k])@.len() == regular_context_count()
                        && forall|i: int|
                        0 <= i < regular_context_count() ==> (#[trigger] regular_mode_contexts@[k]@[i]).wf(
                            reset as int,
                        ),
                forall|k: int|
                    0 <= k < c ==> (#[trigger] run_mode_contexts@[k])@.len() == 2 && run_mode_contexts@[k]@[0].wf(
                        reset as int,
                    ) && run_mode_contexts@[k]@[1].wf(reset as int) && run_mode_contexts@[k]@[0].spec_ri() == 0
                        && run_mode_contexts@[k]@[1].spec_ri() == 1,
                forall|k: int| 0 <= k < c ==> #[trigger] run_index@[k] == 0,
            decreases num_components - c,
        {
            let mut contexts: Vec<RegularModeContext> = Vec::new();
            let fresh = RegularModeContext::new(range);
            let mut i: usize = 0;
            while i < 365
                invariant
                    i <= 365,
                    contexts@.len() == i,
                    fresh.wf(reset as int),
                    forall|m: int| 0 <= m < i ==> #[trigger] contexts@[m] == fresh,
                decreases 365 - i,
            {
                contexts.push(fresh);
                i = i + 1;
            }
            regular_mode_contexts.push(contexts);
            let mut runs: Vec<RunModeContext> = Vec::new();
            runs.push(RunModeContext::new(0, range));
            runs.push(RunModeContext::new(1, range));
            run_mode_contexts.push(runs);
            run_index.push(0);
            c = c + 1;
        }
        let sample_max: i32 = if frame_info.bits_per_sample <= 8 { 255 } else { 65535 };
        Self {
            frame_info,
            pc_parameters,
            coding_parameters,
            destination,
            position: 0,
            bit_buffer: 0,
            free_bit_count: 32,
            is_ff_written: false,
            regular_mode_contexts,
            run_mode_contexts,
            run_index,
            t1: pc_parameters.threshold1,
            t2: pc_parameters.threshold2,
            t3: pc_parameters.threshold3,
            reset_threshold: pc_parameters.reset_value,
            sample_max,
        }
    }

    /// Empties the bit buffer.
    fn initialize(&mut self)
        requires
            old(self).wf(),
        ensures
            final(self).wf(),
            final(self).same_setup(old(self)),
            final(self).position == old(self).position,
            final(self).destination@ == old(self).destination@,
            final(self).regular_mode_contexts@ == old(self).regular_mode_contexts@,
            final(self).run_mode_contexts@ == old(self).run_mode_contexts@,
            final(self).run_index@ == old(self).run_index@,
            final(self).bit_buffer == 0,
            final(self).free_bit_count == 32,
    {
        self.bit_buffer = 0;
        self.free_bit_count = 32;
        self.is_ff_written = false;
    }

    /// Moves the next byte of the bit buffer to the destination (as room allows): 8 bits,
    /// or 7 bits under a 0 bit after a 0xFF byte (A.1), so no marker can appear in the scan.
    fn emit_byte(&mut self)
        requires
            old(self).wf(),
            old(self).free_bit_count <= 24 || old(self).is_ff_written && old(self).free_bit_count <= 25,
        ensures
            final(self).wf(),
            final(self).same_setup(old(self)),
            final(self).regular_mode_contexts@ == old(self).regular_mode_contexts@,
            final(self).run_mode_contexts@ == old(self).run_mode_contexts@,
            final(self).run_index@ == old(self).run_index@,
            old(self).position <= final(self).position,
            final(self).destination@.subrange(0, old(self).position as int) == old(self).destination@.subrange(
                0,
                old(self).position as int,
            ),
            final(self).free_bit_count == old(self).free_bit_count + if old(self).is_ff_written { 7int } else { 8int },
    {
        let byte_val: u8 = if self.is_ff_written {
            let b = (self.bit_buffer >> 25u32) as u8;
            self.bit_buffer = self.bit_buffer << 7u32;
            self.free_bit_count = self.free_bit_count + 7;
            b
        } else {
            let b = (self.bit_buffer >> 24u32) as u8;
            self.bit_buffer = self.bit_buffer << 8u32;
            self.free_bit_count = self.free_bit_count + 8;
            b
        };
        if self.position < self.destination.len() {
            let p = self.position;
            self.destination[p] = byte_val;
            self.position = p + 1;
        }
        self.is_ff_written = byte_val == JPEG_MARKER_START_BYTE;
    }

    /// Moves the full bytes of the bit buffer to the destination (as room allows).
    fn flush(&mut self)
        requires
            old(self).wf(),
        ensures
            final(self).wf(),
            final(self).same_setup(old(self)),
            final(self).regular_mode_contexts@ == old(self).regular_mode_contexts@,
            final(self).run_mode_contexts@ == old(self).run_mode_contexts@,
            final(self).run_index@ == old(self).run_index@,
            old(self).position <= final(self).position,
            final(self).destination@.subrange(0, old(self).position as int) == old(self).destination@.subrange(
                0,
                old(self).position as int,
            ),
            final(self).free_bit_count > 24,
            old(self).free_bit_count > 24 ==> *final(self) == *old(self),
    {
        while self.free_bit_count <= 24
            invariant
                self.wf(),
                self.same_setup(old(self)),
                self.regular_mode_contexts@ == old(self).regular_mode_contexts@,
                self.run_mode_contexts@ == old(self).run_mode_contexts@,
                self.run_index@ == old(self).run_index@,
                old(self).position <= self.position,
                self.destination@.subrange(0, old(self).position as int) == old(self).destination@.subrange(
                    0,
                    old(self).position as int,
                ),
                old(self).free_bit_count > 24 ==> *self == *old(self),
            decreases 32 - self.free_bit_count,
        {
            self.emit_byte();
        }
    }

    /// Appends the low `bit_count` bits of `bits` (clamped to 0..=31) to the bit buffer,
    /// flushing full bytes when it runs out of room.
    fn append_to_bit_stream(&mut self, bits: u32, bit_count: i32)
        requires
            old(self).wf(),
        ensures
            final(self).wf(),
            final(self).same_setup(old(self)),
            final(self).regular_mode_contexts@ == old(self).regular_mode_contexts@,
            final(self).run_mode_contexts@ == old(self).run_mode_contexts@,
            final(self).run_index@ == old(self).run_index@,
            old(self).position <= final(self).position,
            final(self).destination@.subrange(0, old(self).position as int) == old(self).destination@.subrange(
                0,
                old(self).position as int,
            ),
            bit_count == 0 ==> *final(self) == *old(self),
            0 < bit_count <= 31 && bit_count <= old(self).free_bit_count ==> final(self).free_bit_count == old(self).free_bit_count
                - bit_count && final(self).bit_buffer == old(self).bit_buffer | (bits << ((old(
                self,
            ).free_bit_count - bit_count) as u32)) && final(self).position == old(self).position,
    {
        if bit_count == 0 {
            return;
        }
        let bit_count: i32 = if bit_count < 0 { 0 } else if bit_count > 31 { 31 } else { bit_count };
        if bit_count == 0 {
            return;
        }
        if self.free_bit_count < bit_count {
            let bits_that_fit: i32 = if self.free_bit_count > 0 { self.free_bit_count } else { 0 };
            if bits_that_fit > 0 {
                let shift = bit_count - bits_that_fit;
                let bc = bit_count as u32;
                proof {
                    lemma_one_shl_u32(bc);
                }
                let mask = ((1u32 << (bit_count as u32)) - 1) >> (shift as u32);
                let high_bits = (bits >> (shift as u32)) & mask;
                self.bit_buffer = self.bit_buffer | (high_bits << ((self.free_bit_count - bits_that_fit) as u32));
                self.free_bit_count = self.free_bit_count - bits_that_fit;
            }
            self.flush();
            let remaining = bit_count - bits_that_fit;
            if remaining > 0 && self.free_bit_count >= remaining {
                let rm = remaining as u32;
                proof {
                    lemma_one_shl_u32(rm);
                }
                let low_mask = (1u32 << rm) - 1;
                let low_bits = bits & low_mask;
                self.bit_buffer = self.bit_buffer | (low_bits << ((self.free_bit_count - remaining) as u32));
                self.free_bit_count = self.free_bit_count - remaining;
            }
        } else {
            self.bit_buffer = self.bit_buffer | (bits << ((self.free_bit_count - bit_count) as u32));
            self.free_bit_count = self.free_bit_count - bit_count;
        }
    }

    /// Appends `bit_count` one bits (at most 31).
    fn append_ones_to_bit_stream(&mut self, bit_count: i32)
        requires
            old(self).wf(),
            bit_count >= 0,
        ensures
            final(self).wf(),
            final(self).same_setup(old(self)),
            final(self).regular_mode_contexts@ == old(self).regular_mode_contexts@,
            final(self).run_mode_contexts@ == old(self).run_mode_contexts@,
            final(self).run_index@ == old(self).run_index@,
            old(self).position <= final(self).position,
            final(self).destination@.subrange(0, old(self).position as int) == old(self).destination@.subrange(
                0,
                old(self).position as int,
            ),
            bit_count == 0 ==> *final(self) == *old(self),
            ({
                let f = *final(self);
                let o = *old(self);
                0 < bit_count <= 31 && bit_count <= o.free_bit_count ==> {
                    &&& f.free_bit_count == o.free_bit_count - bit_count
                    &&& f.bit_buffer == o.bit_buffer | (((1u32 << (bit_count as u32)) - 1) as u32) << ((
                    o.free_bit_count - bit_count) as u32)
                    &&& f.position == o.position
                }
            }),
    {
        if bit_count == 0 {
            return;
        }
        let bit_count: i32 = if bit_count > 31 { 31 } else { bit_count };
        proof {
            lemma_one_shl_u32(bit_count as u32);
        }
        self.append_to_bit_stream((1u32 << (bit_count as u32)).wrapping_sub(1), bit_count);
    }

    /// Flushes, pads the last byte with zero bits (one fewer after a 0xFF byte, whose
    /// successor holds 7 bits) and flushes it.
    fn end_scan(&mut self)
        requires
            old(self).wf(),
        ensures
            final(self).wf(),
            final(self).same_setup(old(self)),
            old(self).position <= final(self).position,
            final(self).destination@.subrange(0, old(self).position as int) == old(self).destination@.subrange(
                0,
                old(self).position as int,
            ),
            final(self).free_bit_count > 24,
            final(self).is_ff_written ==> final(self).free_bit_count > 25,
    {
        self.flush();
        let pad = if self.is_ff_written { (self.free_bit_count - 1) % 8 } else { self.free_bit_count % 8 };
        self.append_to_bit_stream(0, pad);
        while self.free_bit_count <= 24 || self.is_ff_written && self.free_bit_count <= 25
            invariant
                self.wf(),
                self.same_setup(old(self)),
                old(self).position <= self.position,
                self.destination@.subrange(0, old(self).position as int) == old(self).destination@.subrange(
                    0,
                    old(self).position as int,
                ),
            decreases 32 - self.free_bit_count,
        {
            self.emit_byte();
        }
    }

    /// The region of local gradient `di` (A.3.3).
    fn quantize_gradient(&self, di: i32) -> (r: i32)
        requires
            self.wf(),
        ensures
            r == spec_quantize_gradient(di as int, self.t1 as int, self.t2 as int, self.t3 as int, self.coding_parameters.near_lossless as int),
            -4 <= r <= 4,
    {
        let near = self.coding_parameters.near_lossless;
        if di <= -self.t3 {
            return -4;
        }
        if di <= -self.t2 {
            return -3;
        }
        if di <= -self.t1 {
            return -2;
        }
        if di < -near {
            return -1;
        }
        if di <= near {
            return 0;
        }
        if di < self.t1 {
            return 1;
        }
        if di < self.t2 {
            return 2;
        }
        if di < self.t3 {
            return 3;
        }
        4
    }

    /// The context number of three gradient regions.
    fn compute_context_id(&self, q1: i32, q2: i32, q3: i32) -> (r: i32)
        requires
            -4 <= q1 <= 4,
            -4 <= q2 <= 4,
            -4 <= q3 <= 4,
        ensures
            r == spec_context_id(q1 as int, q2 as int, q3 as int),
            -364 <= r <= 364,
    {
        (q1 * 9 + q2) * 9 + q3
    }

    /// The prediction of a sample from its neighbors `ra` (left), `rb` (above) and `rc`
    /// (above left), clamped to the frame's sample range.
    fn compute_predicted_value(&self, ra: i32, rb: i32, rc: i32) -> (r: i32)
        requires
            self.wf(),
            0 <= ra <= 65535,
            0 <= rb <= 65535,
            0 <= rc <= 65535,
        ensures
            r == spec_predicted_value(
                ra as int,
                rb as int,
                rc as int,
                vstd::arithmetic::power2::pow2(self.frame_info.bits_per_sample as nat) - 1,
            ),
            0 <= r <= 65535,
    {
        let sign = bit_wise_sign(rb - ra);
        let d1 = rc - ra;
        let d2 = rb - rc;
        proof {
            lemma_sign_xor(sign, d1);
            lemma_sign_xor(sign, d2);
        }
        let predicted = if (sign ^ d1) < 0 {
            rb
        } else if (sign ^ d2) < 0 {
            ra
        } else {
            ra + rb - rc
        };
        let bps = self.frame_info.bits_per_sample as u32;
        proof {
            vstd::arithmetic::power2::lemma2_to64();
            if bps < 16 {
                vstd::arithmetic::power2::lemma_pow2_strictly_increases(bps as nat, 16);
            }
            vstd::bits::lemma_u32_shl_is_mul(1u32, bps);
        }
        let shifted: u32 = 1u32 << bps;
        let max_val: i32 = (shifted - 1) as i32;
        if predicted < 0 {
            0
        } else if predicted > max_val {
            max_val
        } else {
            predicted
        }
    }

    /// The prediction error quantized for NEAR and reduced modulo the range.
    fn compute_error_value(&self, e: i32) -> (r: i32)
        requires
            self.wf(),
            -65535 <= e <= 65535,
        ensures
            r == spec_modulo_range(
                spec_quantize_error(e as int, self.coding_parameters.near_lossless as int),
                self.pc_parameters.maximum_sample_value + 1,
            ),
            -65535 <= r <= 65535,
    {
        let near = self.coding_parameters.near_lossless;
        let q = if e > 0 {
            assert((e + near) / (2 * near + 1) <= 65535) by (nonlinear_arith)
                requires
                    0 < e <= 65535,
                    0 <= near <= 255,
            ;
            (e + near) / (2 * near + 1)
        } else {
            assert((near - e) / (2 * near + 1) <= 65535) by (nonlinear_arith)
                requires
                    -65535 <= e <= 0,
                    0 <= near <= 255,
            ;
            -((near - e) / (2 * near + 1))
        };
        let range = self.pc_parameters.maximum_sample_value + 1;
        let mut v = q;
        if v < 0 {
            v = v + range;
        }
        if v >= (range + 1) / 2 {
            v = v - range;
        }
        v
    }

    /// The mapped error value: `2e` for `e >= 0`, `-2e - 1` below (A.5.2).
    fn map_error_value(&self, error_value: i32) -> (r: i32)
        requires
            -65537 <= error_value <= 65537,
        ensures
            r == spec_map_error(error_value as int),
            0 <= r <= 131075,
    {
        let two_e: i32 = 2 * error_value;
        let sh: i32 = error_value >> 30u32;
        let r = sh ^ two_e;
        assert((error_value >= 0 ==> r == two_e) && (error_value < 0 ==> r == -two_e - 1)) by (bit_vector)
            requires
                -65537 <= error_value <= 65537,
                two_e == 2 * error_value,
                sh == error_value >> 30u32,
                r == sh ^ two_e,
        ;
        r
    }

    /// Codes a mapped error value with Golomb parameter `k`, limited to `limit` bits: the
    /// unary high part, a one bit and the `k` low bits; or, for a long high part, the
    /// escape code of `limit - qbpp` and `mapped_error - 1` in qbpp bits.
    fn encode_mapped_value(&mut self, k: i32, mapped_error: i32, limit: i32)
        requires
            old(self).wf(),
            0 <= k <= 30,
            0 <= mapped_error <= 262144,
            -65536 <= limit <= 65535,
        ensures
            final(self).wf(),
            final(self).same_setup(old(self)),
            final(self).regular_mode_contexts@ == old(self).regular_mode_contexts@,
            final(self).run_mode_contexts@ == old(self).run_mode_contexts@,
            final(self).run_index@ == old(self).run_index@,
            old(self).position <= final(self).position,
    {
        let high_bits = mapped_error >> (k as u32);
        assert(0 <= high_bits <= mapped_error) by (bit_vector)
            requires
                0 <= mapped_error,
                0 <= k <= 30,
                high_bits == mapped_error >> (k as u32),
        ;
        let qbpp = self.coding_parameters.quantized_bits_per_sample;
        if high_bits < limit - qbpp - 1 {
            let mut i: i32 = 0;
            while i < high_bits
                invariant
                    self.wf(),
                    self.same_setup(old(self)),
                    self.regular_mode_contexts@ == old(self).regular_mode_contexts@,
                    self.run_mode_contexts@ == old(self).run_mode_contexts@,
                    self.run_index@ == old(self).run_index@,
                    old(self).position <= self.position,
                    0 <= i <= high_bits,
                decreases high_bits - i,
            {
                self.append_to_bit_stream(0, 1);
                i = i + 1;
            }
            self.append_to_bit_stream(1, 1);
            let kk = k as u32;
            proof {
                lemma_one_shl_i32(kk);
            }
            let mask: i32 = (1i32 << kk) - 1;
            let low = mapped_error & mask;
            proof {
                lemma_and_bounded_i32(mapped_error, mask);
            }
            self.append_to_bit_stream(low as u32, k);
        } else {
            let remaining = limit - qbpp;
            if remaining > 31 {
                self.append_to_bit_stream(0, 31);
                let rest = remaining - 31;
                self.append_to_bit_stream(1, if rest > 31 { 31 } else { rest });
            } else {
                self.append_to_bit_stream(1, if remaining > 31 { 31 } else { remaining });
            }
            let q = qbpp as u32;
            proof {
                lemma_one_shl_i32(q);
            }
            let mask: i32 = (1i32 << q) - 1;
            let m1: i32 = mapped_error - 1;
            let low = m1 & mask;
            proof {
                lemma_and_bounded_i32(m1, mask);
            }
            self.append_to_bit_stream(low as u32, qbpp);
        }
    }

    /// Codes sample `x` of component `comp` in regular mode with context `qs` and
    /// prediction `predicted` (A.4 to A.6), and updates the context.
    fn encode_regular(&mut self, qs: i32, x: i32, predicted: i32, comp: usize) -> (r: Result<(), JpeglsError>)
        requires
            old(self).wf(),
            -364 <= qs <= 364,
            0 <= x <= 65535,
            0 <= predicted <= 65535,
            comp < coded_components(old(self).frame_info, old(self).coding_parameters),
        ensures
            final(self).wf(),
            final(self).same_setup(old(self)),
            final(self).run_mode_contexts@ == old(self).run_mode_contexts@,
            final(self).run_index@ == old(self).run_index@,
            old(self).position <= final(self).position,
            r is Err ==> r == Err::<(), JpeglsError>(JpeglsError::InvalidData),
            ({
                let sign = spec_bit_wise_sign(qs as int);
                let idx = spec_apply_sign(qs as int, sign);
                let ctx = old(self).regular_mode_contexts@[comp as int]@[idx];
                let fin = final(self).regular_mode_contexts@;
                let e = regular_error_value(
                    x as int,
                    predicted as int,
                    ctx.spec_c(),
                    sign,
                    old(self).coding_parameters.near_lossless as int,
                    old(self).pc_parameters.maximum_sample_value + 1,
                    old(self).sample_max as int,
                );
                r is Ok ==> {
                    &&& ctx.updated_by(
                        final(self).regular_mode_contexts@[comp as int]@[idx],
                        e,
                        old(self).coding_parameters.near_lossless as int,
                        old(self).reset_threshold as int,
                    )
                    &&& forall|c: int, i: int|
                        #![trigger fin[c]@[i]]
                        0 <= c < fin.len() && 0 <= i < fin[c]@.len() && !(c == comp && i == idx) ==> fin[c]@[i]
                            == old(self).regular_mode_contexts@[c]@[i]
                }
            }),
    {
        let sign = bit_wise_sign(qs);
        let ctx_index = apply_sign_for_index(qs, sign);
        let near = self.coding_parameters.near_lossless;
        let limit = self.coding_parameters.limit;
        let reset = self.reset_threshold;
        let ghost n = coded_components(self.frame_info, self.coding_parameters);
        assert(self.regular_mode_contexts@[comp as int]@.len() == regular_context_count());
        let mut ctx = self.regular_mode_contexts[comp][ctx_index];
        assert(ctx.wf(reset as int));
        let k = match ctx.compute_golomb_coding_parameter(31) {
            Ok(k) => k,
            Err(e) => {
                return Err(e);
            },
        };
        let c_val = ctx.c();
        let correction = ctx.get_error_correction(near | k);
        let pv = correct_prediction(predicted + apply_sign(c_val, sign), self.sample_max);
        let error_val = self.compute_error_value(apply_sign(x - pv, sign));
        let flipped = error_val ^ correction;
        proof {
            lemma_xor_correction(error_val, correction);
        }
        let mapped_error = self.map_error_value(flipped);
        self.encode_mapped_value(k, mapped_error, limit);
        let outcome = ctx.update_variables_and_bias(error_val, near, reset);
        if outcome.is_err() {
            return Err(JpeglsError::InvalidData);
        }
        let mut row = self.regular_mode_contexts.remove(comp);
        row.set(ctx_index, ctx);
        self.regular_mode_contexts.insert(comp, row);
        assert forall|c: int|
            0 <= c < n implies (#[trigger] self.regular_mode_contexts@[c])@.len() == regular_context_count() && forall|i: int|
                0 <= i < regular_context_count() ==> (#[trigger] self.regular_mode_contexts@[c]@[i]).wf(
                    self.reset_threshold as int,
                ) by {
            if c != comp {
                assert(self.regular_mode_contexts@[c] == old(self).regular_mode_contexts@[c]);
            }
        }
        outcome
    }

    /// Moves the run index of `comp` up, to at most 31.
    fn increment_run_index(&mut self, comp: usize)
        requires
            old(self).wf(),
            comp < coded_components(old(self).frame_info, old(self).coding_parameters),
        ensures
            final(self).wf(),
            final(self).same_setup(old(self)),
            final(self).position == old(self).position,
            final(self).regular_mode_contexts@ == old(self).regular_mode_contexts@,
            final(self).run_mode_contexts@ == old(self).run_mode_contexts@,
            final(self).run_index@ == old(self).run_index@.update(
                comp as int,
                if old(self).run_index@[comp as int] < 31 { (old(self).run_index@[comp as int] + 1) as usize } else { old(self).run_index@[comp as int] },
            ),
    {
        if self.run_index[comp] < 31 {
            let v = self.run_index[comp] + 1;
            self.run_index.set(comp, v);
        }
    }

    /// Moves the run index of `comp` down, to at least 0.
    fn decrement_run_index(&mut self, comp: usize)
        requires
            old(self).wf(),
            comp < coded_components(old(self).frame_info, old(self).coding_parameters),
        ensures
            final(self).wf(),
            final(self).same_setup(old(self)),
            final(self).position == old(self).position,
            final(self).regular_mode_contexts@ == old(self).regular_mode_contexts@,
            final(self).run_mode_contexts@ == old(self).run_mode_contexts@,
            final(self).run_index@ == old(self).run_index@.update(
                comp as int,
                if old(self).run_index@[comp as int] > 0 { (old(self).run_index@[comp as int] - 1) as usize } else { 0 },
            ),
    {
        if self.run_index[comp] > 0 {
            let v = self.run_index[comp] - 1;
            self.run_index.set(comp, v);
        }
    }

    /// Codes a run of `run_length` samples (A.7.1): a one bit for each full segment of
    /// `2^J[RUNindex]` (the index moving up after each), then at the end of a line a one
    /// bit for a partial segment, else a zero bit and the remainder in `J[RUNindex]` bits.
    fn encode_run_pixels(&mut self, run_length: usize, end_of_line: bool, comp: usize)
        requires
            old(self).wf(),
            comp < coded_components(old(self).frame_info, old(self).coding_parameters),
        ensures
            final(self).wf(),
            final(self).same_setup(old(self)),
            final(self).regular_mode_contexts@ == old(self).regular_mode_contexts@,
            final(self).run_mode_contexts@ == old(self).run_mode_contexts@,
            old(self).position <= final(self).position,
            final(self).run_index@ == old(self).run_index@.update(
                comp as int,
                run_index_after(old(self).run_index@[comp as int] as int, run_length as int) as usize,
            ),
    {
        let ghost total = run_length as int;
        let mut run_length = run_length;
        loop
            invariant
                self.wf(),
                self.same_setup(old(self)),
                self.regular_mode_contexts@ == old(self).regular_mode_contexts@,
                self.run_mode_contexts@ == old(self).run_mode_contexts@,
                old(self).position <= self.position,
                comp < coded_components(self.frame_info, self.coding_parameters),
                self.run_index@.len() == old(self).run_index@.len(),
                forall|c: int| 0 <= c < self.run_index@.len() && c != comp ==> #[trigger] self.run_index@[c] == old(self).run_index@[c],
                run_index_after(self.run_index@[comp as int] as int, run_length as int) == run_index_after(
                    old(self).run_index@[comp as int] as int,
                    total,
                ),
            ensures
                self.run_index@.len() == old(self).run_index@.len(),
                forall|c: int| 0 <= c < self.run_index@.len() && c != comp ==> #[trigger] self.run_index@[c] == old(self).run_index@[c],
                self.run_index@[comp as int] as int == run_index_after(old(self).run_index@[comp as int] as int, total),
            decreases run_length,
        {
            let jv = j(self.run_index[comp]);
            let seg: usize = 1usize << (jv as usize);
            proof {
                lemma_one_shl_usize(jv as usize);
                lemma_pow2_small(jv as nat);
            }
            if run_length < seg {
                break;
            }
            self.append_ones_to_bit_stream(1);
            run_length = run_length - seg;
            self.increment_run_index(comp);
            assert(self.run_index@ =~= old(self).run_index@.update(comp as int, self.run_index@[comp as int]));
        }
        let ghost ri_end = self.run_index@;
        assert(self.run_index@ =~= old(self).run_index@.update(
            comp as int,
            run_index_after(old(self).run_index@[comp as int] as int, total) as usize,
        ));
        if end_of_line {
            if run_length != 0 {
                self.append_ones_to_bit_stream(1);
            }
        } else {
            let jv = j(self.run_index[comp]);
            self.append_to_bit_stream(run_length as u32, jv + 1);
        }
    }

    /// Codes the error of a run interruption sample with context `context_index` of
    /// `comp` (A.7.2.2: `EMErrval = 2 * |Errval| - RItype - map`) and updates the context.
    /// A zero error where the neighbors are equal, which a run interruption never brings,
    /// and an update that would take the accumulated error past its bound stop the
    /// coding with `InvalidData`.
    fn encode_run_interruption_error(&mut self, context_index: usize, error_value: i32, comp: usize) -> (r: Result<
        (),
        JpeglsError,
    >)
        requires
            old(self).wf(),
            context_index < 2,
            -65535 <= error_value <= 65535,
            comp < coded_components(old(self).frame_info, old(self).coding_parameters),
        ensures
            final(self).wf(),
            final(self).same_setup(old(self)),
            final(self).regular_mode_contexts@ == old(self).regular_mode_contexts@,
            final(self).run_index@ == old(self).run_index@,
            old(self).position <= final(self).position,
            r is Err ==> r == Err::<(), JpeglsError>(JpeglsError::InvalidData),
            ({
                let ctx = old(self).run_mode_contexts@[comp as int]@[context_index as int];
                let em = ctx.mapped_interruption_error(error_value as int);
                let fin = final(self).run_mode_contexts@;
                &&& r is Ok <==> em >= 0 && ctx.can_update(em)
                &&& r is Ok ==> ctx.run_updated_by(fin[comp as int]@[context_index as int], error_value as int, em, old(self).reset_threshold as int)
                &&& r is Ok ==> forall|c: int, i: int|
                    #![trigger fin[c]@[i]]
                    0 <= c < fin.len() && 0 <= i < fin[c]@.len() && !(c == comp && i == context_index) ==> fin[c]@[i]
                        == old(self).run_mode_contexts@[c]@[i]
            }),
    {
        let ghost n = coded_components(self.frame_info, self.coding_parameters);
        assert(self.run_mode_contexts@[comp as int]@.len() == 2);
        let mut ctx = self.run_mode_contexts[comp][context_index];
        assert(ctx.wf(self.reset_threshold as int));
        let k = ctx.compute_golomb_coding_parameter();
        let map = ctx.compute_map(error_value, k);
        let abs = if error_value < 0 { -error_value } else { error_value };
        let e_mapped = 2 * abs - ctx.run_interruption_type() - if map { 1 } else { 0 };
        if e_mapped < 0 {
            return Err(JpeglsError::InvalidData);
        }
        let jv = j(self.run_index[comp]);
        let limit = self.coding_parameters.limit - jv - 1;
        self.encode_mapped_value(k, e_mapped, limit);
        if ctx.a() as i64 + ((e_mapped + 1 - ctx.run_interruption_type()) / 2) as i64 >= 16777216i64 {
            return Err(JpeglsError::InvalidData);
        }
        let reset = self.reset_threshold;
        ctx.update_variables(error_value, e_mapped, reset);
        let mut row = self.run_mode_contexts.remove(comp);
        row.set(context_index, ctx);
        self.run_mode_contexts.insert(comp, row);
        assert forall|c: int| 0 <= c < n implies (#[trigger] self.run_mode_contexts@[c])@.len() == 2
            && self.run_mode_contexts@[c]@[0].wf(self.reset_threshold as int) && self.run_mode_contexts@[c]@[1].wf(
            self.reset_threshold as int,
        ) && self.run_mode_contexts@[c]@[0].spec_ri() == 0 && self.run_mode_contexts@[c]@[1].spec_ri() == 1 by {
            if c != comp {
                assert(self.run_mode_contexts@[c] == old(self).run_mode_contexts@[c]);
            }
        }
        Ok(())
    }

    /// Codes run interruption sample `x` with neighbors `ra` and `rb` (A.7.2) and gives
    /// its reconstructed value.
    fn encode_run_interruption_pixel(&mut self, x: i32, ra: i32, rb: i32, comp: usize) -> (r: Result<i32, JpeglsError>)
        requires
            old(self).wf(),
            0 <= x <= 65535,
            0 <= ra <= 65535,
            0 <= rb <= 65535,
            comp < coded_components(old(self).frame_info, old(self).coding_parameters),
        ensures
            final(self).wf(),
            final(self).same_setup(old(self)),
            final(self).regular_mode_contexts@ == old(self).regular_mode_contexts@,
            final(self).run_index@ == old(self).run_index@,
            old(self).position <= final(self).position,
            r matches Ok(v) ==> 0 <= v <= old(self).sample_max,
            r is Err ==> r == Err::<i32, JpeglsError>(JpeglsError::InvalidData),
            r matches Ok(v) ==> v == run_interruption_value(
                x as int,
                ra as int,
                rb as int,
                old(self).coding_parameters.near_lossless as int,
                old(self).pc_parameters.maximum_sample_value + 1,
                old(self).sample_max,
            ),
    {
        let near = self.coding_parameters.near_lossless;
        let d = ra - rb;
        let ad = if d < 0 { -d } else { d };
        if ad <= near {
            let error_value = self.compute_error_value(x - ra);
            match self.encode_run_interruption_error(1, error_value, comp) {
                Ok(()) => {},
                Err(e) => {
                    return Err(e);
                },
            }
            Ok(compute_reconstructed_sample(ra, error_value, self.sample_max))
        } else {
            let sign = bit_wise_sign(rb - ra);
            let error_value = self.compute_error_value((x - rb) * sign);
            match self.encode_run_interruption_error(0, error_value, comp) {
                Ok(()) => {},
                Err(e) => {
                    return Err(e);
                },
            }
            Ok(compute_reconstructed_sample(rb, error_value * sign, self.sample_max))
        }
    }

    /// Codes a run from pixel `start` of the current line (A.7): the run goes on while
    /// every component of a pixel is within NEAR of the left neighbor `Ra` of the run
    /// (those samples take the value of `Ra`); at an interruption before the end of the
    /// line, the first differing component is coded as a run interruption sample and the
    /// following ones in regular mode. Gives the number of pixels coded.
    fn encode_run_mode_interleaved(
        &mut self,
        start: usize,
        prev_line: &Vec<i32>,
        curr_line: &mut Vec<i32>,
        width: usize,
        comps: usize,
    ) -> (r: Result<usize, JpeglsError>)
        requires
            old(self).wf(),
            comps == coded_components(old(self).frame_info, old(self).coding_parameters),
            start < width,
            line_ok(prev_line@, width as int, comps as int),
            line_ok(old(curr_line)@, width as int, comps as int),
            (width + 1) * comps <= usize::MAX,
        ensures
            final(self).wf(),
            final(self).same_setup(old(self)),
            old(self).position <= final(self).position,
            line_ok(final(curr_line)@, width as int, comps as int),
            r matches Ok(n) ==> 1 <= n <= width - start,
            r is Err ==> r == Err::<usize, JpeglsError>(JpeglsError::InvalidData),
            r matches Ok(n) ==> {
                let line = old(curr_line)@;
                let near = old(self).coding_parameters.near_lossless as int;
                &&& forall|j: int|
                    0 <= j < n - 1 ==> #[trigger] run_pixel_near(line, start + j, start as int, near, comps as int)
                &&& n < width - start ==> !run_pixel_near(line, start + n - 1, start as int, near, comps as int)
            },
    {
        let near = self.coding_parameters.near_lossless;
        let ghost orig = curr_line@;
        let count = width - start;
        let mut ra: Vec<i32> = Vec::new();
        let mut c: usize = 0;
        while c < comps
            invariant
                c <= comps,
                ra@.len() == c,
                start < width,
                line_ok(curr_line@, width as int, comps as int),
                (width + 1) * comps <= usize::MAX,
                forall|i: int| 0 <= i < c ==> 0 <= #[trigger] ra@[i] <= 65535,
                orig == curr_line@,
                forall|i: int| 0 <= i < c ==> #[trigger] ra@[i] == orig[start * comps + i],
            decreases comps - c,
        {
            let ra_idx = if start > 0 {
                proof {
                    lemma_line_index((start - 1) as int, c as int, width as int, comps as int);
                }
                comps + (start - 1) * comps + c
            } else {
                proof {
                    lemma_line_index(0, c as int, width as int, comps as int);
                }
                c
            };
            assert(ra_idx == start * comps + c) by {
                if start > 0 {
                    lemma_line_index((start - 1) as int, c as int, width as int, comps as int);
                }
            }
            ra.push(curr_line[ra_idx]);
            c = c + 1;
        }
        let mut run_length: usize = 0;
        let mut interruption: usize = comps;
        while run_length < count
            invariant_except_break
                interruption == comps,
            invariant
                run_length <= count,
                count == width - start,
                start < width,
                ra@.len() == comps,
                forall|i: int| 0 <= i < comps ==> 0 <= #[trigger] ra@[i] <= 65535,
                line_ok(curr_line@, width as int, comps as int),
                (width + 1) * comps <= usize::MAX,
                interruption <= comps,
                orig == old(curr_line)@,
                near == old(self).coding_parameters.near_lossless,
                forall|i: int| 0 <= i < comps ==> #[trigger] ra@[i] == orig[start * comps + i],
                forall|j: int|
                    0 <= j < run_length ==> #[trigger] run_pixel_near(orig, start + j, start as int, near as int, comps as int),
                forall|i: int|
                    comps + (start + run_length) * comps <= i < curr_line@.len() ==> #[trigger] curr_line@[i] == orig[i],
            ensures
                interruption < comps ==> run_length < count,
                interruption == comps ==> run_length == count,
                interruption < comps ==> !run_pixel_near(orig, start + run_length, start as int, near as int, comps as int),
            decreases count - run_length,
        {
            let p = start + run_length;
            let mut cc: usize = 0;
            let mut mismatch: usize = comps;
            while cc < comps
                invariant_except_break
                    mismatch == comps,
                invariant
                    cc <= comps,
                    p < width,
                    p == start + run_length,
                    ra@.len() == comps,
                    forall|i: int| 0 <= i < comps ==> 0 <= #[trigger] ra@[i] <= 65535,
                    line_ok(curr_line@, width as int, comps as int),
                    (width + 1) * comps <= usize::MAX,
                    orig == old(curr_line)@,
                    forall|i: int| 0 <= i < comps ==> #[trigger] ra@[i] == orig[start * comps + i],
                    forall|i: int|
                        comps + (start + run_length) * comps <= i < curr_line@.len() ==> #[trigger] curr_line@[i] == orig[i],
                    forall|k: int|
                        0 <= k < cc ==> spec_is_near(
                            #[trigger] orig[comps + p * comps + k] as int,
                            orig[start * comps + k] as int,
                            near as int,
                        ),
                ensures
                    mismatch <= comps,
                    mismatch == comps ==> run_pixel_near(orig, p as int, start as int, near as int, comps as int),
                    mismatch < comps ==> !run_pixel_near(orig, p as int, start as int, near as int, comps as int),
                decreases comps - cc,
            {
                proof {
                    lemma_line_index(p as int, cc as int, width as int, comps as int);
                }
                let val = curr_line[comps + p * comps + cc];
                if !is_near(val, ra[cc], near) {
                    mismatch = cc;
                    proof {
                        assert(!spec_is_near(orig[comps + p * comps + cc] as int, orig[start * comps + cc] as int, near as int));
                    }
                    break;
                }
                cc = cc + 1;
            }
            if mismatch < comps {
                interruption = mismatch;
                break;
            }
            assert((p + 1) * comps >= p * comps) by (nonlinear_arith);
            let mut cc: usize = 0;
            while cc < comps
                invariant
                    cc <= comps,
                    p < width,
                    p == start + run_length,
                    ra@.len() == comps,
                    forall|i: int| 0 <= i < comps ==> 0 <= #[trigger] ra@[i] <= 65535,
                    line_ok(curr_line@, width as int, comps as int),
                    (width + 1) * comps <= usize::MAX,
                    orig == old(curr_line)@,
                    forall|i: int|
                        comps + (p + 1) * comps <= i < curr_line@.len() ==> #[trigger] curr_line@[i] == orig[i],
                decreases comps - cc,
            {
                proof {
                    lemma_line_index(p as int, cc as int, width as int, comps as int);
                }
                curr_line.set(comps + p * comps + cc, ra[cc]);
                cc = cc + 1;
            }
            run_length = run_length + 1;
        }
        self.encode_run_pixels(run_length, run_length == count, 0);
        if run_length == count {
            return Ok(run_length);
        }
        let ip = start + run_length;
        let c = interruption;
        proof {
            lemma_line_index(ip as int, c as int, width as int, comps as int);
        }
        let at = comps + ip * comps + c;
        let up_val = prev_line[at];
        let val = curr_line[at];
        let iv = match self.encode_run_interruption_pixel(val, ra[c], up_val, c) {
            Ok(v) => v,
            Err(e) => {
                return Err(e);
            },
        };
        curr_line.set(at, iv);
        self.decrement_run_index(0);
        let mut next_c: usize = c + 1;
        while next_c < comps
            invariant
                self.wf(),
                self.same_setup(old(self)),
                old(self).position <= self.position,
                comps == coded_components(self.frame_info, self.coding_parameters),
                c < next_c <= comps,
                ip < width,
                line_ok(prev_line@, width as int, comps as int),
                line_ok(curr_line@, width as int, comps as int),
                (width + 1) * comps <= usize::MAX,
            decreases comps - next_c,
        {
            proof {
                lemma_line_index(ip as int, next_c as int, width as int, comps as int);
            }
            let idx = comps + ip * comps + next_c;
            let r_a = curr_line[idx - comps];
            let r_up = prev_line[idx];
            let r_up_left = prev_line[idx - comps];
            let r_up_right = if ip == width - 1 {
                r_up
            } else {
                proof {
                    lemma_line_index((ip + 1) as int, next_c as int, width as int, comps as int);
                }
                prev_line[idx + comps]
            };
            let q1 = self.quantize_gradient(r_up_right - r_up);
            let q2 = self.quantize_gradient(r_up - r_up_left);
            let q3 = self.quantize_gradient(r_up_left - r_a);
            let qs = self.compute_context_id(q1, q2, q3);
            let predicted = self.compute_predicted_value(r_a, r_up, r_up_left);
            match self.encode_regular(qs, curr_line[idx], predicted, next_c) {
                Ok(()) => {},
                Err(e) => {
                    return Err(e);
                },
            }
            next_c = next_c + 1;
        }
        Ok(run_length + 1)
    }

    /// Codes one line (A.3): for each pixel, the gradients of each component give its
    /// context; when a context is not 0 the components are coded in regular mode, else a
    /// run starts there.
    fn encode_sample_line(
        &mut self,
        prev_line: &Vec<i32>,
        curr_line: &mut Vec<i32>,
        width: usize,
        comps: usize,
        _is_first_line: bool,
    ) -> (r: Result<(), JpeglsError>)
        requires
            old(self).wf(),
            comps == coded_components(old(self).frame_info, old(self).coding_parameters),
            line_ok(prev_line@, width as int, comps as int),
            line_ok(old(curr_line)@, width as int, comps as int),
            (width + 1) * comps <= usize::MAX,
            width >= 1,
        ensures
            final(self).wf(),
            final(self).same_setup(old(self)),
            old(self).position <= final(self).position,
            line_ok(final(curr_line)@, width as int, comps as int),
            r is Err ==> r == Err::<(), JpeglsError>(JpeglsError::InvalidData),
    {
        let mut rb: Vec<i32> = Vec::new();
        let mut rd: Vec<i32> = Vec::new();
        let mut c: usize = 0;
        while c < comps
            invariant
                c <= comps,
                rb@.len() == c,
                rd@.len() == c,
                line_ok(prev_line@, width as int, comps as int),
                (width + 1) * comps <= usize::MAX,
                width >= 1,
                forall|i: int| 0 <= i < c ==> 0 <= #[trigger] rb@[i] <= 65535,
                forall|i: int| 0 <= i < c ==> 0 <= #[trigger] rd@[i] <= 65535,
            decreases comps - c,
        {
            proof {
                lemma_line_index(0, c as int, width as int, comps as int);
            }
            rb.push(prev_line[c]);
            rd.push(prev_line[comps + c]);
            c = c + 1;
        }
        let mut pixel: usize = 0;
        while pixel < width
            invariant
                self.wf(),
                self.same_setup(old(self)),
                old(self).position <= self.position,
                comps == coded_components(self.frame_info, self.coding_parameters),
                pixel <= width,
                line_ok(prev_line@, width as int, comps as int),
                line_ok(curr_line@, width as int, comps as int),
                (width + 1) * comps <= usize::MAX,
                rb@.len() == comps,
                rd@.len() == comps,
                forall|i: int| 0 <= i < comps ==> 0 <= #[trigger] rb@[i] <= 65535,
                forall|i: int| 0 <= i < comps ==> 0 <= #[trigger] rd@[i] <= 65535,
            decreases width - pixel,
        {
            let is_last = pixel == width - 1;
            let mut all_qs_zero = true;
            let mut qs_v: Vec<i32> = Vec::new();
            let mut pred_v: Vec<i32> = Vec::new();
            let mut c: usize = 0;
            while c < comps
                invariant
                    self.wf(),
                    comps == coded_components(self.frame_info, self.coding_parameters),
                    c <= comps,
                    pixel < width,
                    is_last == (pixel == width - 1),
                    line_ok(prev_line@, width as int, comps as int),
                    line_ok(curr_line@, width as int, comps as int),
                    (width + 1) * comps <= usize::MAX,
                    rb@.len() == comps,
                    rd@.len() == comps,
                    forall|i: int| 0 <= i < comps ==> 0 <= #[trigger] rb@[i] <= 65535,
                    forall|i: int| 0 <= i < comps ==> 0 <= #[trigger] rd@[i] <= 65535,
                    qs_v@.len() == c,
                    pred_v@.len() == c,
                    forall|i: int| 0 <= i < c ==> -364 <= #[trigger] qs_v@[i] <= 364,
                    forall|i: int| 0 <= i < c ==> 0 <= #[trigger] pred_v@[i] <= 65535,
                decreases comps - c,
            {
                proof {
                    lemma_line_index(pixel as int, c as int, width as int, comps as int);
                }
                let idx = comps + pixel * comps + c;
                let ra = curr_line[idx - comps];
                let rc = rb[c];
                let new_rb = rd[c];
                rb.set(c, new_rb);
                let new_rd = if is_last {
                    new_rb
                } else {
                    proof {
                        lemma_line_index((pixel + 1) as int, c as int, width as int, comps as int);
                    }
                    prev_line[idx + comps]
                };
                rd.set(c, new_rd);
                let q1 = self.quantize_gradient(new_rd - new_rb);
                let q2 = self.quantize_gradient(new_rb - rc);
                let q3 = self.quantize_gradient(rc - ra);
                let qs = self.compute_context_id(q1, q2, q3);
                if qs != 0 {
                    all_qs_zero = false;
                }
                qs_v.push(qs);
                pred_v.push(self.compute_predicted_value(ra, new_rb, rc));
                c = c + 1;
            }
            if !all_qs_zero {
                let mut c: usize = 0;
                while c < comps
                    invariant
                        self.wf(),
                        self.same_setup(old(self)),
                        old(self).position <= self.position,
                        comps == coded_components(self.frame_info, self.coding_parameters),
                        c <= comps,
                        pixel < width,
                        line_ok(curr_line@, width as int, comps as int),
                        (width + 1) * comps <= usize::MAX,
                        qs_v@.len() == comps,
                        pred_v@.len() == comps,
                        forall|i: int| 0 <= i < comps ==> -364 <= #[trigger] qs_v@[i] <= 364,
                        forall|i: int| 0 <= i < comps ==> 0 <= #[trigger] pred_v@[i] <= 65535,
                    decreases comps - c,
                {
                    proof {
                        lemma_line_index(pixel as int, c as int, width as int, comps as int);
                    }
                    let val = curr_line[comps + pixel * comps + c];
                    match self.encode_regular(qs_v[c], val, pred_v[c], c) {
                        Ok(()) => {},
                        Err(e) => {
                            return Err(e);
                        },
                    }
                    c = c + 1;
                }
                pixel = pixel + 1;
            } else {
                let n = match self.encode_run_mode_interleaved(pixel, prev_line, curr_line, width, comps) {
                    Ok(n) => n,
                    Err(e) => {
                        return Err(e);
                    },
                };
                pixel = pixel + n;
                if pixel < width {
                    let mut c: usize = 0;
                    while c < comps
                        invariant
                            c <= comps,
                            0 < pixel < width,
                            line_ok(prev_line@, width as int, comps as int),
                            (width + 1) * comps <= usize::MAX,
                            rb@.len() == comps,
                            rd@.len() == comps,
                            forall|i: int| 0 <= i < comps ==> 0 <= #[trigger] rb@[i] <= 65535,
                            forall|i: int| 0 <= i < comps ==> 0 <= #[trigger] rd@[i] <= 65535,
                        decreases comps - c,
                    {
                        proof {
                            lemma_line_index((pixel - 1) as int, c as int, width as int, comps as int);
                            lemma_line_index(pixel as int, c as int, width as int, comps as int);
                        }
                        rb.set(c, prev_line[(pixel - 1) * comps + comps + c]);
                        rd.set(c, prev_line[pixel * comps + comps + c]);
                        c = c + 1;
                    }
                }
            }
        }
        Ok(())
    }

    /// Codes the lines of the scan from `samples` (`width * comps` per line): each line
    /// sits after `comps` boundary samples that repeat the first pixel of the line
    /// above; above the first line all samples are 0.
    fn encode_lines(&mut self, samples: &Vec<i32>) -> (r: Result<(), JpeglsError>)
        requires
            old(self).wf(),
            forall|i: int| 0 <= i < samples@.len() ==> 0 <= #[trigger] samples@[i] <= 65535,
            ({
                let w = old(self).frame_info.width as int;
                let h = old(self).frame_info.height as int;
                let n = coded_components(old(self).frame_info, old(self).coding_parameters);
                &&& samples@.len() >= w * h * n
                &&& (w + 1) * n <= usize::MAX
                &&& (w >= 1 || h == 0)
            }),
        ensures
            final(self).wf(),
            final(self).same_setup(old(self)),
            old(self).position <= final(self).position,
            r is Err ==> r == Err::<(), JpeglsError>(JpeglsError::InvalidData),
    {
        let width = self.frame_info.width as usize;
        let height = self.frame_info.height as usize;
        let comps: usize = if self.coding_parameters.interleave_mode == InterleaveMode::NotInterleaved {
            1
        } else {
            self.frame_info.component_count as usize
        };
        if height == 0 {
            return Ok(());
        }
        assert((width + 1) * comps == width * comps + comps) by (nonlinear_arith);
        let stride = width * comps;
        let buffer_width = stride + comps;
        let init: i32 = 0;
        let mut prev: Vec<i32> = Vec::new();
        let mut curr: Vec<i32> = Vec::new();
        let mut i: usize = 0;
        while i < buffer_width
            invariant
                i <= buffer_width,
                prev@.len() == i,
                curr@.len() == i,
                init == 0,
                forall|k: int| 0 <= k < i ==> #[trigger] prev@[k] == init,
                forall|k: int| 0 <= k < i ==> #[trigger] curr@[k] == init,
            decreases buffer_width - i,
        {
            prev.push(init);
            curr.push(init);
            i = i + 1;
        }
        let total = samples.len();
        let mut line: usize = 0;
        while line < height
            invariant
                total == samples@.len(),
                buffer_width == stride + comps,
                self.wf(),
                self.same_setup(old(self)),
                old(self).position <= self.position,
                comps == coded_components(self.frame_info, self.coding_parameters),
                width == self.frame_info.width,
                height == self.frame_info.height,
                width >= 1,
                stride == width * comps,
                buffer_width == (width + 1) * comps,
                (width + 1) * comps <= usize::MAX,
                samples@.len() >= width * height * comps,
                forall|k: int| 0 <= k < samples@.len() ==> 0 <= #[trigger] samples@[k] <= 65535,
                line <= height,
                line_ok(prev@, width as int, comps as int),
                line_ok(curr@, width as int, comps as int),
            decreases height - line,
        {
            assert((line + 1) * stride <= height * stride) by (nonlinear_arith)
                requires
                    line + 1 <= height,
                    stride >= 0,
            ;
            assert(height * stride == width * height * comps) by (nonlinear_arith)
                requires
                    stride == width * comps,
            ;
            assert((line + 1) * stride == line * stride + stride) by (nonlinear_arith);
            let start = line * stride;
            let mut k: usize = 0;
            while k < stride
                invariant
                    total == samples@.len(),
                    k <= stride,
                    stride == width * comps,
                    buffer_width == (width + 1) * comps,
                    buffer_width == stride + comps,
                    start + stride <= samples@.len(),
                    forall|m: int| 0 <= m < samples@.len() ==> 0 <= #[trigger] samples@[m] <= 65535,
                    line_ok(curr@, width as int, comps as int),
                decreases stride - k,
            {
                curr.set(comps + k, samples[start + k]);
                k = k + 1;
            }
            let mut c: usize = 0;
            while c < comps
                invariant
                    c <= comps,
                    width >= 1,
                    buffer_width == (width + 1) * comps,
                    buffer_width == stride + comps,
                    stride == width * comps,
                    line_ok(prev@, width as int, comps as int),
                    line_ok(curr@, width as int, comps as int),
                decreases comps - c,
            {
                proof {
                    lemma_line_index(0, c as int, width as int, comps as int);
                }
                curr.set(c, prev[comps + c]);
                c = c + 1;
            }
            match self.encode_sample_line(&prev, &mut curr, width, comps, line == 0) {
                Ok(()) => {},
                Err(e) => {
                    return Err(e);
                },
            }
            std::mem::swap(&mut prev, &mut curr);
            line = line + 1;
        }
        Ok(())
    }

    /// Codes the scan of `source` (samples of the frame, `width * comps` per line, the
    /// stride is not used): empties the bit buffer, codes the lines, pads and flushes
    /// the last byte. Gives the number of bytes written.
    pub fn encode_scan<T: JpeglsSample>(&mut self, source: &[T], stride: usize) -> (r: Result<usize, JpeglsError>)
        requires
            old(self).wf(),
            ({
                let w = old(self).frame_info.width as int;
                let h = old(self).frame_info.height as int;
                let n = coded_components(old(self).frame_info, old(self).coding_parameters);
                &&& source@.len() >= w * h * n
                &&& (w + 1) * n <= usize::MAX
                &&& (w >= 1 || h == 0)
            }),
        ensures
            final(self).wf(),
            final(self).same_setup(old(self)),
            r matches Ok(n) ==> n == final(self).position && n <= final(self).destination@.len(),
            r is Err ==> r == Err::<usize, JpeglsError>(JpeglsError::InvalidData),
    {
        let type_max = T::max_value();
        let mut samples: Vec<i32> = Vec::new();
        let mut i: usize = 0;
        while i < source.len()
            invariant
                type_max == T::spec_max_value(),
                type_max <= 65535,
                i <= source@.len(),
                samples@.len() == i,
                forall|k: int| 0 <= k < i ==> 0 <= #[trigger] samples@[k] <= 65535,
            decreases source@.len() - i,
        {
            let v = source[i].to_i32();
            samples.push(v);
            i = i + 1;
        }
        self.initialize();
        match self.encode_lines(&samples) {
            Ok(()) => {},
            Err(e) => {
                return Err(e);
            },
        }
        self.end_scan();
        Ok(self.get_length())
    }

    /// Bytes written.
    pub fn get_length(&self) -> (r: usize)
        ensures
            r == self.position,
    {
        self.position
    }
}

} // verus!
