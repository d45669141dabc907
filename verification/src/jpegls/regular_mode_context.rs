use crate::error::JpeglsError;
use crate::jpegls::traits::{bit_wise_sign, spec_bit_wise_sign};
use vstd::prelude::*;

verus! {

/// Bound on the accumulated error magnitude `A` and bias `B` of a context.
pub open spec fn context_bound() -> int {
    65536int * 256
}

/// Initial value of `A` for a sample range: `max(2, (range + 32) / 64)`.
pub open spec fn spec_initialization_value_for_a(range: int) -> int {
    if (range + 32) / 64 > 2 { (range + 32) / 64 } else { 2 }
}

/// Context of the regular coding mode of JPEG-LS (ISO/IEC 14495-1, A.2 and A.6).
#[derive(Debug, Clone, Copy, PartialEq, Eq, Structural)]
pub struct RegularModeContext {
    a: i32,
    b: i32,
    c: i32,
    n: i32,
}

impl RegularModeContext {
    /// Accumulated prediction error magnitude `A`.
    pub closed spec fn spec_a(&self) -> int {
        self.a as int
    }

    /// Accumulated bias `B`.
    pub closed spec fn spec_b(&self) -> int {
        self.b as int
    }

    /// Bias correction `C`.
    pub closed spec fn spec_c(&self) -> int {
        self.c as int
    }

    /// Occurrence counter `N`.
    pub closed spec fn spec_n(&self) -> int {
        self.n as int
    }

    /// The state a context can be in while a scan is coded with a RESET value of `reset`.
    pub open spec fn wf(&self, reset: int) -> bool {
        &&& 1 <= self.spec_n() <= reset
        &&& 0 <= self.spec_a() < context_bound()
        &&& -self.spec_n() < self.spec_b() <= 0
        &&& -128 <= self.spec_c() <= 127
    }

    /// `after` is this context updated after coding `error_value` (A.12, A.13), when
    /// the sums stay within [`context_bound`].
    pub open spec fn updated_by(&self, after: Self, error_value: int, near_lossless: int, reset_threshold: int) -> bool {
        let a1 = self.spec_a() + (if error_value < 0 { -error_value } else { error_value });
        let b1 = self.spec_b() + error_value * (2 * near_lossless + 1);
        let halve = self.spec_n() == reset_threshold;
        let a2 = if halve { a1 / 2 } else { a1 };
        let b2 = if halve { b1 / 2 } else { b1 };
        let n2 = (if halve { self.spec_n() / 2 } else { self.spec_n() }) + 1;
        &&& !(a1 >= context_bound() || b1 >= context_bound() || b1 <= -context_bound())
        &&& after.spec_a() == a2
        &&& after.spec_n() == n2
        &&& after.spec_b() == (if b2 + n2 <= 0 {
            if b2 + n2 <= -n2 { -n2 + 1 } else { b2 + n2 }
        } else if b2 > 0 {
            if b2 - n2 > 0 { 0 } else { b2 - n2 }
        } else {
            b2
        })
        &&& after.spec_c() == (if b2 + n2 <= 0 {
            if self.spec_c() > -128 { self.spec_c() - 1 } else { self.spec_c() }
        } else if b2 > 0 {
            if self.spec_c() < 127 { self.spec_c() + 1 } else { self.spec_c() }
        } else {
            self.spec_c()
        })
    }

    /// A fresh context for a sample range: `A = max(2, (range + 32) / 64)`, `B = C = 0`, `N = 1`.
    pub fn new(range: i32) -> (r: Self)
        requires
            0 <= range <= 65536,
    ensures
            r.spec_a() == spec_initialization_value_for_a(range as int),
            r.spec_b() == 0,
            r.spec_c() == 0,
            r.spec_n() == 1,
    {
        Self { a: Self::initialization_value_for_a(range), b: 0, c: 0, n: 1 }
    }

    /// The bias correction `C`.
    pub fn c(&self) -> (r: i32)
        ensures
            r == self.spec_c(),
    {
        self.c
    }

    /// The error correction of A.4.3: `sign(2B + N - 1)` when `k == 0`, else 0.
    pub fn get_error_correction(&self, k: i32) -> (r: i32)
        requires
            -536870912 <= self.spec_b() <= 0,
            1 <= self.spec_n() <= 536870912,
        ensures
            r == if k != 0 { 0 } else { spec_bit_wise_sign(2 * self.spec_b() + self.spec_n() - 1) },
    {
        if k != 0 {
            return 0;
        }
        bit_wise_sign(2 * self.b + self.n - 1)
    }

    /// Updates `A`, `B`, `N` and `C` after coding `error_value` (code segments A.12 and A.13).
    /// When `A` or `|B|` reaches `2^24` the data is not valid JPEG-LS: `InvalidData`, with
    /// `A` and `B` already updated and `N` and `C` as they were.
    pub fn update_variables_and_bias(
        &mut self,
        error_value: i32,
        near_lossless: i32,
        reset_threshold: i32,
    ) -> (r: Result<(), JpeglsError>)
        requires
            old(self).wf(reset_threshold as int),
            2 <= reset_threshold <= 65536,
            -65536 <= error_value <= 65536,
            0 <= near_lossless <= 255,
        ensures
            ({
                let a1 = old(self).spec_a() + (if error_value < 0 { -(error_value as int) } else { error_value as int });
                let b1 = old(self).spec_b() + error_value * (2 * near_lossless + 1);
                if a1 >= context_bound() || b1 >= context_bound() || b1 <= -context_bound() {
                    &&& r == Err::<(), JpeglsError>(JpeglsError::InvalidData)
                    &&& final(self).spec_a() == a1
                    &&& final(self).spec_b() == b1
                    &&& final(self).spec_c() == old(self).spec_c()
                    &&& final(self).spec_n() == old(self).spec_n()
                } else {
                    let halve = old(self).spec_n() == reset_threshold;
                    let a2 = if halve { a1 / 2 } else { a1 };
                    let b2 = if halve { b1 / 2 } else { b1 };
                    let n2 = (if halve { old(self).spec_n() / 2 } else { old(self).spec_n() }) + 1;
                    &&& r is Ok
                    &&& final(self).spec_a() == a2
                    &&& final(self).spec_n() == n2
                    &&& final(self).spec_b() == (if b2 + n2 <= 0 {
                        if b2 + n2 <= -n2 { -n2 + 1 } else { b2 + n2 }
                    } else if b2 > 0 {
                        if b2 - n2 > 0 { 0 } else { b2 - n2 }
                    } else {
                        b2
                    })
                    &&& final(self).spec_c() == (if b2 + n2 <= 0 {
                        if old(self).spec_c() > -128 { old(self).spec_c() - 1 } else { old(self).spec_c() }
                    } else if b2 > 0 {
                        if old(self).spec_c() < 127 { old(self).spec_c() + 1 } else { old(self).spec_c() }
                    } else {
                        old(self).spec_c()
                    })
                    &&& final(self).wf(reset_threshold as int)
                }
            }),
    {
        let abs_e = if error_value < 0 { -error_value } else { error_value };
        let a1 = self.a as i64 + abs_e as i64;
        let f = 2 * near_lossless as i64 + 1;
        let e = error_value as i64;
        assert(-65536 * 511 <= e * f <= 65536 * 511) by (nonlinear_arith)
            requires
                -65536 <= e <= 65536,
                1 <= f <= 511,
        ;
        let b1 = self.b as i64 + e * f;
        if a1 >= 65536 * 256 || b1 >= 65536 * 256 || b1 <= -65536 * 256 {
            self.a = a1 as i32;
            self.b = b1 as i32;
            return Err(JpeglsError::InvalidData);
        }
        let mut a2 = a1;
        let mut b2 = b1;
        let mut n2 = self.n as i64;
        if self.n == reset_threshold {
            proof {
                lemma_shr1_is_div2(a2);
                lemma_shr1_is_div2(b2);
                lemma_shr1_is_div2(n2);
            }
            a2 = a2 >> 1;
            b2 = b2 >> 1;
            n2 = n2 >> 1;
        }
        n2 = n2 + 1;
        self.a = a2 as i32;
        self.b = b2 as i32;
        self.n = n2 as i32;

        // Code segment A.13
        if self.b + self.n <= 0 {
            self.b = self.b + self.n;
            if self.b <= -self.n {
                self.b = -self.n + 1;
            }
            if self.c > -128 {
                self.c = self.c - 1;
            }
        } else if self.b > 0 {
            self.b = self.b - self.n;
            if self.b > 0 {
                self.b = 0;
            }
            if self.c < 127 {
                self.c = self.c + 1;
            }
        }
        Ok(())
    }

    /// The Golomb parameter `k`: the least `k` with `N << k >= A`, found among `0..max_k_value`;
    /// when none is below `max_k_value` the data is `InvalidData`.
    pub fn compute_golomb_coding_parameter(&self, max_k_value: i32) -> (r: Result<i32, JpeglsError>)
        requires
            1 <= self.spec_n() <= 65536,
            0 <= self.spec_a() < context_bound(),
            0 <= max_k_value <= 31,
        ensures
            match r {
                Ok(k) => 0 <= k < max_k_value && self.spec_n() * vstd::arithmetic::power2::pow2(k as nat)
                    >= self.spec_a() && forall|j: int| 0 <= j < k ==> #[trigger] (self.spec_n()
                    * vstd::arithmetic::power2::pow2(j as nat)) < self.spec_a(),
                Err(e) => e == JpeglsError::InvalidData && forall|j: int| 0 <= j < max_k_value ==> #[trigger] (
                self.spec_n() * vstd::arithmetic::power2::pow2(j as nat)) < self.spec_a(),
            },
    {
        let mut k: i32 = 0;
        let n = self.n as u64;
        let a = self.a as u64;
        proof {
            vstd::arithmetic::power2::lemma2_to64();
        }
        while k < max_k_value && (n << (k as u64)) < a
            invariant
                0 <= k <= max_k_value,
                max_k_value <= 31,
                n == self.spec_n(),
                a == self.spec_a(),
                1 <= n <= 65536,
                0 <= a < context_bound(),
                forall|j: int| 0 <= j < k ==> #[trigger] (self.spec_n() * vstd::arithmetic::power2::pow2(j as nat))
                    < self.spec_a(),
            decreases max_k_value - k,
        {
            proof {
                lemma_shl_is_mul_pow2(n, k as u64);
            }
            k = k + 1;
        }
        proof {
            if k < max_k_value {
                lemma_shl_is_mul_pow2(n, k as u64);
            }
        }
        if k == max_k_value {
            return Err(JpeglsError::InvalidData);
        }
        Ok(k)
    }

    fn initialization_value_for_a(range: i32) -> (r: i32)
        requires
            0 <= range <= 65536,
        ensures
            r == spec_initialization_value_for_a(range as int),
    {
        let v = (range + 32) / 64;
        if v > 2 { v } else { 2 }
    }
}

/// An arithmetic shift right by one is floor division by two.
pub proof fn lemma_shr1_is_div2(x: i64)
    ensures
        (x >> 1) == x / 2,
{
    assert(2 * (x >> 1) == x || 2 * (x >> 1) + 1 == x) by (bit_vector);
}

/// A logical shift right by one is division by two.
pub proof fn lemma_u64_shr1_is_div2(x: u64)
    ensures
        (x >> 1) == x / 2,
{
    vstd::bits::lemma_u64_shr_is_div(x, 1);
    vstd::arithmetic::power2::lemma2_to64();
}

/// `n << k == n * 2^k` for small `n` and `k`.
pub proof fn lemma_shl_is_mul_pow2(n: u64, k: u64)
    requires
        n <= 65536,
        k < 31,
    ensures
        (n << k) == n * vstd::arithmetic::power2::pow2(k as nat),
{
    vstd::arithmetic::power2::lemma_pow2_pos(k as nat);
    vstd::arithmetic::power2::lemma_pow2_strictly_increases(k as nat, 31);
    vstd::arithmetic::power2::lemma2_to64();
    let p = vstd::arithmetic::power2::pow2(k as nat);
    assert(n * p <= 65536 * 2147483648) by (nonlinear_arith)
        requires
            n <= 65536,
            0 < p < 2147483648,
    ;
    vstd::bits::lemma_u64_shl_is_mul(n, k);
}

} // verus!
