use crate::jpegls::{ColorTransformation, InterleaveMode};
use vstd::prelude::*;

verus! {

/// Parameters that control the coding of one JPEG-LS scan.
#[derive(Debug, Clone, Copy, PartialEq, Eq, Structural)]
pub struct CodingParameters {
    /// Maximal allowed difference of a reconstructed sample (0 = lossless).
    pub near_lossless: i32,
    /// How the components of a scan are interleaved.
    pub interleave_mode: InterleaveMode,
    /// Restart interval in lines (0 = none).
    pub restart_interval: u32,
    /// Maximal length of a limited-length Golomb code word.
    pub limit: i32,
    /// Bits per sample after near-lossless quantization.
    pub quantized_bits_per_sample: i32,
    /// Color transformation applied before coding.
    pub transformation: ColorTransformation,
    /// Mapping table selector.
    pub mapping_table_id: i32,
}

impl CodingParameters {
    /// The value `default()` returns.
    pub open spec fn spec_default() -> Self {
        CodingParameters {
            near_lossless: 0,
            interleave_mode: InterleaveMode::NotInterleaved,
            restart_interval: 0,
            limit: 0,
            quantized_bits_per_sample: 0,
            transformation: ColorTransformation::Identity,
            mapping_table_id: 0,
        }
    }
}

impl Default for CodingParameters {
    fn default() -> (r: Self)
        ensures
            r == (CodingParameters {
                near_lossless: 0,
                interleave_mode: InterleaveMode::NotInterleaved,
                restart_interval: 0,
                limit: 0,
                quantized_bits_per_sample: 0,
                transformation: ColorTransformation::Identity,
                mapping_table_id: 0,
            }),
    {
        CodingParameters {
            near_lossless: 0,
            interleave_mode: InterleaveMode::NotInterleaved,
            restart_interval: 0,
            limit: 0,
            quantized_bits_per_sample: 0,
            transformation: ColorTransformation::Identity,
            mapping_table_id: 0,
        }
    }
}

/// JPEG-LS preset coding parameters (the LSE segment of type 1).
#[derive(Debug, Clone, Copy, PartialEq, Eq, Structural)]
pub struct JpeglsPcParameters {
    pub maximum_sample_value: i32,
    pub threshold1: i32,
    pub threshold2: i32,
    pub threshold3: i32,
    pub reset_value: i32,
}

impl JpeglsPcParameters {
    /// The value `default()` returns.
    pub open spec fn spec_default() -> Self {
        JpeglsPcParameters {
            maximum_sample_value: 0,
            threshold1: 0,
            threshold2: 0,
            threshold3: 0,
            reset_value: 0,
        }
    }
}

impl Default for JpeglsPcParameters {
    fn default() -> (r: Self)
        ensures
            r == (JpeglsPcParameters {
                maximum_sample_value: 0,
                threshold1: 0,
                threshold2: 0,
                threshold3: 0,
                reset_value: 0,
            }),
    {
        JpeglsPcParameters {
            maximum_sample_value: 0,
            threshold1: 0,
            threshold2: 0,
            threshold3: 0,
            reset_value: 0,
        }
    }
}

/// CLAMP of ISO/IEC 14495-1 C.2.4.1.1: `j` when `i` is above `maximum` or below `j`, else `i`.
pub open spec fn spec_clamp(i: int, j: int, maximum: int) -> int {
    if i > maximum || i < j { j } else { i }
}

/// Default thresholds of ISO/IEC 14495-1 C.2.4.1.1 for a given MAXVAL and NEAR.
pub open spec fn spec_compute_default(maximum_sample_value: int, near_lossless: int) -> JpeglsPcParameters {
    if maximum_sample_value >= 128 {
        let factor = (if maximum_sample_value < 4095 { maximum_sample_value } else { 4095 } + 128) / 256;
        let t1 = spec_clamp(factor * 1 + 2 + 3 * near_lossless, near_lossless + 1, maximum_sample_value);
        let t2 = spec_clamp(factor * 4 + 3 + 5 * near_lossless, t1, maximum_sample_value);
        let t3 = spec_clamp(factor * 17 + 4 + 7 * near_lossless, t2, maximum_sample_value);
        JpeglsPcParameters {
            maximum_sample_value: maximum_sample_value as i32,
            threshold1: t1 as i32,
            threshold2: t2 as i32,
            threshold3: t3 as i32,
            reset_value: 64,
        }
    } else {
        let factor = 256int / (maximum_sample_value + 1);
        let a1 = 3int / factor + 3 * near_lossless;
        let a2 = 7int / factor + 5 * near_lossless;
        let a3 = 21int / factor + 7 * near_lossless;
        let t1 = spec_clamp(if a1 > 2 { a1 } else { 2 }, near_lossless + 1, maximum_sample_value);
        let t2 = spec_clamp(if a2 > 3 { a2 } else { 3 }, t1, maximum_sample_value);
        let t3 = spec_clamp(if a3 > 4 { a3 } else { 4 }, t2, maximum_sample_value);
        JpeglsPcParameters {
            maximum_sample_value: maximum_sample_value as i32,
            threshold1: t1 as i32,
            threshold2: t2 as i32,
            threshold3: t3 as i32,
            reset_value: 64,
        }
    }
}

fn clamp(i: i32, j: i32, maximum: i32) -> (r: i32)
    ensures
        r == spec_clamp(i as int, j as int, maximum as int),
{
    if i > maximum || i < j {
        j
    } else {
        i
    }
}

/// Computes the default preset coding parameters for MAXVAL and NEAR.
pub fn compute_default(maximum_sample_value: i32, near_lossless: i32) -> (r: JpeglsPcParameters)
    requires
        1 <= maximum_sample_value <= 65535,
        0 <= near_lossless <= 255,
    ensures
        r == spec_compute_default(maximum_sample_value as int, near_lossless as int),
{
    if maximum_sample_value >= 128 {
        let m = if maximum_sample_value < 4095 { maximum_sample_value } else { 4095 };
        let factor = (m + 128) / 256;
        assert(0 <= factor <= 16) by (nonlinear_arith)
            requires
                128 <= m <= 4095,
                factor as int == (m as int + 128) / 256,
        ;
        let t1 = clamp(factor * 1 + 2 + 3 * near_lossless, near_lossless + 1, maximum_sample_value);
        let t2 = clamp(factor * 4 + 3 + 5 * near_lossless, t1, maximum_sample_value);
        let t3 = clamp(factor * 17 + 4 + 7 * near_lossless, t2, maximum_sample_value);
        JpeglsPcParameters {
            maximum_sample_value,
            threshold1: t1,
            threshold2: t2,
            threshold3: t3,
            reset_value: 64,
        }
    } else {
        let factor = 256 / (maximum_sample_value + 1);
        assert(2 <= factor <= 128) by (nonlinear_arith)
            requires
                1 <= maximum_sample_value < 128,
                factor as int == 256int / (maximum_sample_value as int + 1),
        ;
        let a1 = 3 / factor + 3 * near_lossless;
        let a2 = 7 / factor + 5 * near_lossless;
        let a3 = 21 / factor + 7 * near_lossless;
        let t1 = clamp(if a1 > 2 { a1 } else { 2 }, near_lossless + 1, maximum_sample_value);
        let t2 = clamp(if a2 > 3 { a2 } else { 3 }, t1, maximum_sample_value);
        let t3 = clamp(if a3 > 4 { a3 } else { 4 }, t2, maximum_sample_value);
        JpeglsPcParameters {
            maximum_sample_value,
            threshold1: t1,
            threshold2: t2,
            threshold3: t3,
            reset_value: 64,
        }
    }
}

/// LIMIT of ISO/IEC 14495-1 A.2.1 for a sample precision: `2 * (bpp + max(8, bpp))`.
pub open spec fn spec_limit(bits_per_sample: int) -> int {
    let bpp = if bits_per_sample < 2 { 2 } else { bits_per_sample };
    2 * (bpp + if bpp > 8 { bpp } else { 8 })
}

/// Computes the LIMIT parameter of the limited-length Golomb code.
/// Near-lossless coding and the component count do not change it here.
pub fn compute_limit_parameter(bits_per_sample: i32, near_lossless: i32, component_count: i32) -> (r: i32)
    requires
        0 <= bits_per_sample <= 16,
    ensures
        r == spec_limit(bits_per_sample as int),
{
    let bpp = if bits_per_sample < 2 { 2 } else { bits_per_sample };
    2 * (bpp + if bpp > 8 { bpp } else { 8 })
}

} // verus!
