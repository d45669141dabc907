use vstd::prelude::*;

verus! {

/// A sample type of a JPEG-LS image (8-bit or 16-bit).
pub trait JpeglsSample: Copy + Sized {
    /// Number of bits of the type.
    spec fn spec_bits() -> int;

    /// Largest value of the type.
    spec fn spec_max_value() -> int;

    /// The value of a sample as an integer.
    spec fn spec_to_int(self) -> int;

    /// Number of bits of the type.
    fn bits() -> (r: u32)
        ensures
            r == Self::spec_bits(),
            8 <= r <= 16,
    ;

    /// Largest value of the type.
    fn max_value() -> (r: i32)
        ensures
            r == Self::spec_max_value(),
            r == 255 || r == 65535,
    ;

    /// The sample as an `i32`.
    fn to_i32(self) -> (r: i32)
        ensures
            r == self.spec_to_int(),
            0 <= r <= Self::spec_max_value(),
    ;

    /// The low bits of `val` as a sample.
    fn from_i32(val: i32) -> (r: Self)
        ensures
            0 <= val <= Self::spec_max_value() ==> r.spec_to_int() == val,
    ;
}

impl JpeglsSample for u8 {
    open spec fn spec_bits() -> int {
        8
    }

    open spec fn spec_max_value() -> int {
        255
    }

    open spec fn spec_to_int(self) -> int {
        self as int
    }

    fn bits() -> (r: u32) {
        8
    }

    fn max_value() -> (r: i32) {
        255
    }

    fn to_i32(self) -> (r: i32) {
        self as i32
    }

    fn from_i32(val: i32) -> (r: Self) {
        #[verifier::truncate]
        (val as u8)
    }
}

impl JpeglsSample for u16 {
    open spec fn spec_bits() -> int {
        16
    }

    open spec fn spec_max_value() -> int {
        65535
    }

    open spec fn spec_to_int(self) -> int {
        self as int
    }

    fn bits() -> (r: u32) {
        16
    }

    fn max_value() -> (r: i32) {
        65535
    }

    fn to_i32(self) -> (r: i32) {
        self as i32
    }

    fn from_i32(val: i32) -> (r: Self) {
        #[verifier::truncate]
        (val as u16)
    }
}

/// Whether `lhs` and `rhs` differ by at most `near`.
pub open spec fn spec_is_near(lhs: int, rhs: int, near: int) -> bool {
    -near <= lhs - rhs <= near
}

/// Whether two sample values differ by at most `near`.
pub fn is_near(lhs: i32, rhs: i32, near: i32) -> (r: bool)
    requires
        -65536 <= lhs <= 65536,
        -65536 <= rhs <= 65536,
    ensures
        r == spec_is_near(lhs as int, rhs as int, near as int),
{
    let d = lhs - rhs;
    let ad = if d < 0 { -d } else { d };
    ad <= near
}

/// A prediction clamped to `0..=max_value`.
pub open spec fn spec_correct_prediction(predicted: int, max_value: int) -> int {
    if predicted < 0 {
        0
    } else if predicted > max_value {
        max_value
    } else {
        predicted
    }
}

/// Clamps a prediction to the sample range `0..=max_value`.
pub fn correct_prediction(predicted: i32, max_value: i32) -> (r: i32)
    ensures
        r == spec_correct_prediction(predicted as int, max_value as int),
{
    if predicted < 0 {
        0
    } else if predicted > max_value {
        max_value
    } else {
        predicted
    }
}

/// The reconstructed sample `(predicted + error) & max_value`.
pub fn compute_reconstructed_sample(predicted: i32, error_value: i32, max_value: i32) -> (r: i32)
    requires
        max_value == 255 || max_value == 65535,
        -1048576 <= predicted <= 1048576,
        -1048576 <= error_value <= 1048576,
    ensures
        r == (predicted + error_value) as i32 & max_value,
        0 <= r <= max_value,
{
    let s = predicted + error_value;
    let r = s & max_value;
    assert(0 <= (s & max_value) <= max_value) by (bit_vector)
        requires
            max_value == 255 || max_value == 65535,
    ;
    r
}

/// The sign of `i`: -1, 0 or 1.
pub open spec fn spec_bit_wise_sign(i: int) -> int {
    if i < 0 {
        -1
    } else if i > 0 {
        1
    } else {
        0
    }
}

/// Returns the sign of `i` as -1, 0 or 1.
pub fn bit_wise_sign(i: i32) -> (r: i32)
    ensures
        r == spec_bit_wise_sign(i as int),
{
    if i < 0 {
        -1
    } else if i > 0 {
        1
    } else {
        0
    }
}

/// `val` negated when `sign` is negative.
pub open spec fn spec_apply_sign(val: int, sign: int) -> int {
    if sign < 0 {
        -val
    } else {
        val
    }
}

/// Returns `-val` when `sign < 0`, else `val`.
pub fn apply_sign(val: i32, sign: i32) -> (r: i32)
    requires
        sign < 0 ==> val > i32::MIN,
    ensures
        r == spec_apply_sign(val as int, sign as int),
{
    if sign < 0 {
        -val
    } else {
        val
    }
}

/// Returns `apply_sign(val, sign)` as an index.
pub fn apply_sign_for_index(val: i32, sign: i32) -> (r: usize)
    requires
        spec_apply_sign(val as int, sign as int) >= 0,
        sign < 0 ==> val > i32::MIN,
    ensures
        r as int == spec_apply_sign(val as int, sign as int),
{
    if sign < 0 {
        (-val) as usize
    } else {
        val as usize
    }
}

} // verus!
