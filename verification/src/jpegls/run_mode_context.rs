use crate::error::JpeglsError;
use crate::jpegls::regular_mode_context::{
    context_bound, lemma_shl_is_mul_pow2, lemma_shr1_is_div2, lemma_u64_shr1_is_div2, spec_initialization_value_for_a,
};
use vstd::arithmetic::power2::pow2;
use vstd::prelude::*;

verus! {

/// Context of the run interruption coding of JPEG-LS (ISO/IEC 14495-1, A.7.2).
#[derive(Debug, Clone, Copy, PartialEq, Eq, Structural)]
pub struct RunModeContext {
    run_interruption_type: i32,
    a: i32,
    n: i32,
    nn: i32,
}

/// The temporary value `A + (N >> 1) * RItype` of code segment A.20.
pub open spec fn spec_golomb_temp(a: int, n: int, ri: int) -> int {
    a + (n / 2) * ri
}

impl RunModeContext {
    /// Run interruption type `RItype` (0 or 1).
    pub closed spec fn spec_ri(&self) -> int {
        self.run_interruption_type as int
    }

    /// Accumulated error magnitude `A`.
    pub closed spec fn spec_a(&self) -> int {
        self.a as int
    }

    /// Occurrence counter `N`.
    pub closed spec fn spec_n(&self) -> int {
        self.n as int
    }

    /// Counter of negative errors `Nn`.
    pub closed spec fn spec_nn(&self) -> int {
        self.nn as int
    }

    /// The state a context can be in while a scan is coded with a RESET value of `reset`.
    pub open spec fn wf(&self, reset: int) -> bool {
        &&& 0 <= self.spec_ri() <= 1
        &&& 1 <= self.spec_n() <= reset
        &&& reset <= 65536
        &&& 0 <= self.spec_nn() <= self.spec_n()
        &&& 0 <= self.spec_a() < context_bound()
    }

    /// The mapped error value of run interruption error `e` (A.7.2.2):
    /// `2 * |e| - RItype - map`, with `map` as [`Self::compute_map`] gives it for the
    /// context's Golomb parameter (which is 0 exactly when `N >= A + (N >> 1) * RItype`).
    pub open spec fn mapped_interruption_error(&self, e: int) -> int {
        let k_zero = self.spec_n() >= spec_golomb_temp(self.spec_a(), self.spec_n(), self.spec_ri());
        let map = (k_zero && e > 0 && 2 * self.spec_nn() < self.spec_n()) || (e < 0 && 2 * self.spec_nn()
            >= self.spec_n()) || (e < 0 && !k_zero);
        2 * (if e < 0 { -e } else { e }) - self.spec_ri() - if map { 1int } else { 0int }
    }

    /// The run interruption error decoded from mapped error `e_mapped` (A.22), with the
    /// context's Golomb parameter.
    pub open spec fn unmapped_interruption_error(&self, e_mapped: int) -> int {
        let k_zero = self.spec_n() >= spec_golomb_temp(self.spec_a(), self.spec_n(), self.spec_ri());
        let temp = e_mapped + self.spec_ri();
        let map = temp % 2 == 1;
        let abs = (temp + if map { 1int } else { 0int }) / 2;
        if (!k_zero || 2 * self.spec_nn() >= self.spec_n()) == map { -abs } else { abs }
    }

    /// `after` is this context updated with error `e` and mapped error `e_mapped` (A.23).
    pub open spec fn run_updated_by(&self, after: Self, e: int, e_mapped: int, reset: int) -> bool {
        let nn1 = self.spec_nn() + if e < 0 { 1int } else { 0int };
        let a1 = self.spec_a() + (e_mapped + 1 - self.spec_ri()) / 2;
        let halve = self.spec_n() == reset;
        &&& after.spec_ri() == self.spec_ri()
        &&& after.spec_nn() == if halve { nn1 / 2 } else { nn1 }
        &&& after.spec_a() == if halve { a1 / 2 } else { a1 }
        &&& after.spec_n() == (if halve { self.spec_n() / 2 } else { self.spec_n() }) + 1
    }

    /// Whether an update with mapped error `e_mapped` keeps `A` below the context bound.
    pub open spec fn can_update(&self, e_mapped: int) -> bool {
        0 <= e_mapped <= 262144 && self.spec_a() + (e_mapped + 1 - self.spec_ri()) / 2 < context_bound()
    }

    /// A fresh context: `A = max(2, (range + 32) / 64)`, `N = 1`, `Nn = 0`.
    pub fn new(run_interruption_type: i32, range: i32) -> (r: Self)
        requires
            0 <= range <= 65536,
        ensures
            r.spec_ri() == run_interruption_type,
            r.spec_a() == spec_initialization_value_for_a(range as int),
            r.spec_n() == 1,
            r.spec_nn() == 0,
    {
        Self {
            run_interruption_type,
            a: Self::initialization_value_for_a(range),
            n: 1,
            nn: 0,
        }
    }

    /// The run interruption type.
    pub fn run_interruption_type(&self) -> (r: i32)
        ensures
            r == self.spec_ri(),
    {
        self.run_interruption_type
    }

    /// `A`.
    pub fn a(&self) -> (r: i32)
        ensures
            r == self.spec_a(),
    {
        self.a
    }

    /// `N`.
    pub fn n(&self) -> (r: i32)
        ensures
            r == self.spec_n(),
    {
        self.n
    }

    /// `Nn`.
    pub fn nn(&self) -> (r: i32)
        ensures
            r == self.spec_nn(),
    {
        self.nn
    }

    /// Golomb parameter of code segment A.20, with an error when it would exceed 32.
    pub fn compute_golomb_coding_parameter_checked(&self) -> (r: Result<i32, JpeglsError>)
        requires
            self.wf(65536),
        ensures
            match r {
                Ok(k) => 0 <= k <= 32 && self.spec_n() * pow2(k as nat) >= spec_golomb_temp(
                    self.spec_a(),
                    self.spec_n(),
                    self.spec_ri(),
                ) && forall|j: int|
                    0 <= j < k ==> #[trigger] (self.spec_n() * pow2(j as nat)) < spec_golomb_temp(
                        self.spec_a(),
                        self.spec_n(),
                        self.spec_ri(),
                    ),
                Err(_) => false,
            },
    {
        Ok(self.compute_golomb_coding_parameter())
    }

    /// Golomb parameter of code segment A.20: the least `k` with `N * 2^k >= A + (N >> 1) * RItype`.
    pub fn compute_golomb_coding_parameter(&self) -> (r: i32)
        requires
            self.wf(65536),
        ensures
            0 <= r <= 30,
            self.spec_n() * pow2(r as nat) >= spec_golomb_temp(self.spec_a(), self.spec_n(), self.spec_ri()),
            forall|j: int|
                0 <= j < r ==> #[trigger] (self.spec_n() * pow2(j as nat)) < spec_golomb_temp(
                    self.spec_a(),
                    self.spec_n(),
                    self.spec_ri(),
                ),
    {
        let n = self.n as u64;
        proof {
            lemma_shr1_is_div2(self.n as i64);
        }
        let half = (self.n as u64) >> 1;
        proof {
            lemma_u64_shr1_is_div2(self.n as u64);
        }
        let temp = (self.a as u64) + if self.run_interruption_type == 1 { half } else { 0 };
        assert(temp == spec_golomb_temp(self.spec_a(), self.spec_n(), self.spec_ri()));
        let mut k: u64 = 0;
        proof {
            lemma_shl_is_mul_pow2(n, 0);
            vstd::arithmetic::power2::lemma2_to64();
        }
        while (n << k) < temp
            invariant
                0 <= k <= 30,
                n == self.spec_n(),
                1 <= n <= 65536,
                temp == spec_golomb_temp(self.spec_a(), self.spec_n(), self.spec_ri()),
                temp < context_bound() + 32768,
                (n << k) == n * pow2(k as nat),
                forall|j: int| 0 <= j < k ==> #[trigger] (self.spec_n() * pow2(j as nat)) < temp,
            decreases 30 - k,
        {
            proof {
                if k >= 25 {
                    if k > 25 {
                        vstd::arithmetic::power2::lemma_pow2_strictly_increases(25, k as nat);
                    }
                    vstd::arithmetic::power2::lemma2_to64();
                    assert(n * pow2(k as nat) >= pow2(k as nat)) by (nonlinear_arith)
                        requires
                            n >= 1,
                            pow2(k as nat) > 0,
                    ;
                }
            }
            k = k + 1;
            proof {
                lemma_shl_is_mul_pow2(n, k);
            }
        }
        k as i32
    }

    /// Updates the context after coding a run interruption sample (code segment A.23).
    pub fn update_variables(&mut self, error_value: i32, e_mapped_error_value: i32, reset_threshold: i32)
        requires
            old(self).wf(reset_threshold as int),
            old(self).can_update(e_mapped_error_value as int),
        ensures
            ({
                let nn1 = old(self).spec_nn() + if error_value < 0 { 1int } else { 0int };
                let a1 = old(self).spec_a() + (e_mapped_error_value + 1 - old(self).spec_ri()) / 2;
                let halve = old(self).spec_n() == reset_threshold;
                &&& final(self).spec_ri() == old(self).spec_ri()
                &&& final(self).spec_nn() == if halve { nn1 / 2 } else { nn1 }
                &&& final(self).spec_a() == if halve { a1 / 2 } else { a1 }
                &&& final(self).spec_n() == (if halve { old(self).spec_n() / 2 } else { old(self).spec_n() }) + 1
            }),
            final(self).wf(reset_threshold as int),
    {
        if error_value < 0 {
            self.nn = self.nn + 1;
        }
        let d = (e_mapped_error_value + 1 - self.run_interruption_type) as i64;
        proof {
            lemma_shr1_is_div2(d);
        }
        self.a = self.a + (d >> 1) as i32;

        if self.n == reset_threshold {
            proof {
                lemma_shr1_is_div2(self.a as i64);
                lemma_shr1_is_div2(self.n as i64);
                lemma_shr1_is_div2(self.nn as i64);
            }
            self.a = ((self.a as i64) >> 1) as i32;
            self.n = ((self.n as i64) >> 1) as i32;
            self.nn = ((self.nn as i64) >> 1) as i32;
        }

        self.n = self.n + 1;
    }

    /// The error value of a run interruption sample from `temp = EMErrval + RItype` (code segment A.22).
    pub fn decode_error_value(&self, temp: i32, k: i32) -> (r: i32)
        requires
            0 <= temp < i32::MAX,
        ensures
            ({
                let map = temp % 2 == 1;
                let abs = (temp + if map { 1int } else { 0int }) / 2;
                r == if (k != 0 || 2 * self.spec_nn() >= self.spec_n()) == map { -abs } else { abs }
            }),
    {
        let map = (temp & 1i32) != 0;
        proof {
            crate::bits::lemma_i32_halves(temp);
        }
        let error_value_abs = (temp + (if map { 1 } else { 0 })) / 2;
        if (k != 0 || (2 * (self.nn as i64) >= self.n as i64)) == map {
            -error_value_abs
        } else {
            error_value_abs
        }
    }

    /// Whether the error's sign is coded as "map" (code segment A.21).
    pub fn compute_map(&self, error_value: i32, k: i32) -> (r: bool)
        ensures
            r == ((k == 0 && error_value > 0 && 2 * self.spec_nn() < self.spec_n()) || (error_value < 0 && 2
                * self.spec_nn() >= self.spec_n()) || (error_value < 0 && k != 0)),
    {
        let nn2 = 2 * (self.nn as i64);
        let n = self.n as i64;
        if k == 0 && error_value > 0 && nn2 < n {
            return true;
        }
        if error_value < 0 && nn2 >= n {
            return true;
        }
        if error_value < 0 && k != 0 {
            return true;
        }
        false
    }

    fn initialization_value_for_a(range: i32) -> (r: i32)
        requires
            0 <= range <= 65536,
        ensures
            r == spec_initialization_value_for_a(range as int),
    {
        let v = (range + 32) / 64;
        if v > 2 {
            v
        } else {
            2
        }
    }
}

} // verus!
