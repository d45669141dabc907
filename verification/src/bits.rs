//! Facts about shifts and masks shared by the coders.
use vstd::arithmetic::power2::{lemma2_to64, lemma_pow2_strictly_increases, pow2};
use vstd::bits::{
    lemma_u32_pow2_no_overflow, lemma_u32_shl_is_mul, lemma_u64_pow2_no_overflow, lemma_u64_shl_is_mul,
    lemma_usize_pow2_no_overflow, lemma_usize_shl_is_mul,
};
use vstd::prelude::*;

verus! {

/// Masking a value with a non-negative mask gives a value between 0 and the mask.
pub proof fn lemma_and_bounded_i32(x: i32, m: i32)
    by (bit_vector)
    requires
        m >= 0,
    ensures
        0 <= x & m <= m,
{
}

/// Masking a byte gives at most the mask.
pub proof fn lemma_and_bounded_u8(x: u8, m: u8)
    by (bit_vector)
    ensures
        x & m <= m,
{
}

/// Masking a word gives at most the mask.
pub proof fn lemma_and_bounded_u32(x: u32, m: u32)
    by (bit_vector)
    ensures
        x & m <= m,
{
}

/// The sign of `sign ^ d`, for a sign of -1, 0 or 1: that of `d` flipped when the sign is -1.
pub proof fn lemma_sign_xor(sign: i32, d: i32)
    by (bit_vector)
    requires
        sign == -1 || sign == 0 || sign == 1,
    ensures
        ((sign ^ d) < 0) == (if sign == -1 { d >= 0 } else { d < 0 }),
{
}

/// One shifted left within an `i32` equals the same shift of an unsigned word.
proof fn lemma_one_shl_i32_u32(n: u32)
    by (bit_vector)
    requires
        n < 31,
    ensures
        (1i32 << n) == (1u32 << n) as i32,
        (1u32 << n) < 0x8000_0000,
{
}

/// `2^a <= 2^b` for `a <= b`.
pub proof fn lemma_pow2_le(a: nat, b: nat)
    requires
        a <= b,
    ensures
        pow2(a) <= pow2(b),
{
    if a < b {
        lemma_pow2_strictly_increases(a, b);
    }
}

/// `1 << n` is `2^n` in a word.
pub proof fn lemma_one_shl_u32(n: u32)
    requires
        n < 32,
    ensures
        (1u32 << n) as int == pow2(n as nat),
        (1u32 << n) >= 1,
{
    lemma_u32_pow2_no_overflow(n as nat);
    lemma_u32_shl_is_mul(1, n);
}

/// `1 << n` is `2^n` in a double word.
pub proof fn lemma_one_shl_u64(n: u64)
    requires
        n < 64,
    ensures
        (1u64 << n) as int == pow2(n as nat),
        (1u64 << n) >= 1,
{
    lemma_u64_pow2_no_overflow(n as nat);
    lemma_u64_shl_is_mul(1, n);
}

/// `1 << n` is `2^n` in a `usize`, for a shift that fits any `usize`.
pub proof fn lemma_one_shl_usize(n: usize)
    requires
        n < 32,
    ensures
        (1usize << n) as int == pow2(n as nat),
        (1usize << n) >= 1,
{
    lemma_usize_pow2_no_overflow(n as nat);
    lemma_usize_shl_is_mul(1, n);
}

/// `1 << n` is `2^n` in an `i32`.
pub proof fn lemma_one_shl_i32(n: u32)
    requires
        n < 31,
    ensures
        (1i32 << n) as int == pow2(n as nat),
        (1i32 << n) >= 1,
{
    lemma_one_shl_i32_u32(n);
    lemma_one_shl_u32(n);
}

/// `2^n` is at most `2^15 = 32768` for `n < 16`, and at most `2^30` for `n < 31`.
pub proof fn lemma_pow2_small(n: nat)
    ensures
        n < 16 ==> 1 <= pow2(n) <= 32768,
        n < 31 ==> 1 <= pow2(n) <= 0x4000_0000,
        n < 30 ==> pow2(n) <= 0x2000_0000,
{
    lemma2_to64();
    vstd::arithmetic::power2::lemma_pow2_pos(n);
    if n < 16 {
        lemma_pow2_le(n, 15);
    }
    if n < 31 {
        lemma_pow2_le(n, 30);
    }
    if n < 30 {
        lemma_pow2_le(n, 29);
    }
}

/// The quotient and remainder of an `i32` by 2 and by 4, as shifts and masks.
proof fn lemma_split_i32(v: i32)
    by (bit_vector)
    ensures
        (v >> 1i32) * 2 + (v & 1i32) == v,
        0 <= (v & 1i32) <= 1,
        (v >> 2i32) * 4 + (v & 3i32) == v,
        0 <= (v & 3i32) <= 3,
{
}

/// An arithmetic shift right is floor division, and the low bit is the remainder by 2.
pub proof fn lemma_i32_halves(v: i32)
    ensures
        (v >> 1i32) as int == (v as int) / 2,
        (v & 1i32) as int == (v as int) % 2,
        (v >> 2i32) as int == (v as int) / 4,
{
    lemma_split_i32(v);
    vstd::arithmetic::div_mod::lemma_fundamental_div_mod_converse(v as int, 2, (v >> 1i32) as int, (v & 1i32) as int);
    vstd::arithmetic::div_mod::lemma_fundamental_div_mod_converse(v as int, 4, (v >> 2i32) as int, (v & 3i32) as int);
}

/// Flipping the bits of a bounded value by a correction of -1, 0 or 1 stays bounded.
pub proof fn lemma_xor_correction(e: i32, c: i32)
    by (bit_vector)
    requires
        c == -1 || c == 0 || c == 1,
        -131073 <= e <= 131073,
    ensures
        -131074 <= e ^ c <= 131074,
        -65535 <= e <= 65535 ==> -65536 <= e ^ c <= 65536,
{
}

/// The top five bits of a 16-bit word are below 32.
pub proof fn lemma_u16_top5(v: u16)
    ensures
        v >> 11u16 < 32,
{
    vstd::bits::lemma_u16_shr_is_div(v, 11);
    lemma2_to64();
}

/// Shifting a word left by one doubles it, short of overflow.
pub proof fn lemma_u32_double(x: u32)
    requires
        x < 0x8000_0000,
    ensures
        x << 1u32 == 2 * x,
{
    lemma2_to64();
    lemma_u32_shl_is_mul(x, 1);
}

/// Bit 15 of a 16-bit value is clear exactly below `0x8000`.
pub proof fn lemma_bit15(a: u32)
    by (bit_vector)
    requires
        a <= 0xFFFF,
    ensures
        ((a & 0x8000) == 0) == (a < 0x8000),
{
}

/// The code word of a u-value pair: two one bits at `a` and `s + b` (`s = a + 1`)
/// add without carry, and the second is shifted out past bit 31.
pub proof fn lemma_uvlc_pack(a: u32, b: u32, s: u32)
    by (bit_vector)
    requires
        a < 31,
        b < 32,
        s == a + 1,
    ensures
        (1u32 << a) | ((1u32 << b) << s) == (1u32 << a) + ((1u32 << b) << s),
        a + 1 + b >= 32 ==> ((1u32 << b) << s) == 0,
{
}

/// Two one bits at `a < c` in a 16-bit word: they add without carry, bit `j` is set
/// exactly at `a` and `c`, and shifting right by `s = a + 1` leaves the one at `d = c - s`.
pub proof fn lemma_two_bits_u16(a: u16, c: u16, s: u16, d: u16, j: u16)
    by (bit_vector)
    requires
        a < c < 16,
        s == a + 1,
        d + s == c,
        j < 16,
    ensures
        (1u16 << a) | (1u16 << c) == (1u16 << a) + (1u16 << c),
        (((1u16 << a) | (1u16 << c)) >> j) & 1u16 == if j == a || j == c { 1u16 } else { 0u16 },
        ((1u16 << a) | (1u16 << c)) >> s == 1u16 << d,
{
}

/// A single one bit at `b` in a 16-bit word: bit `j` is set exactly at `b`.
pub proof fn lemma_one_bit_u16(b: u16, j: u16)
    by (bit_vector)
    requires
        b < 16,
        j < 16,
    ensures
        ((1u16 << b) >> j) & 1u16 == if j == b { 1u16 } else { 0u16 },
        1u16 << b != 0,
{
}

/// `1 << n` is `2^n` in a 16-bit word.
pub proof fn lemma_one_shl_u16(n: u16)
    requires
        n < 16,
    ensures
        (1u16 << n) as int == pow2(n as nat),
{
    vstd::bits::lemma_u16_pow2_no_overflow(n as nat);
    vstd::bits::lemma_u16_shl_is_mul(1, n);
}

/// Masking a double word gives at most the mask.
pub proof fn lemma_and_bounded_u64(x: u64, m: u64)
    by (bit_vector)
    ensures
        x & m <= m,
{
}

/// A byte holding `cnt` bits, shifted up by `k` with room, shifts back down unchanged.
pub proof fn lemma_u8_shift_back(buf: u8, k: u8, cnt: u8)
    by (bit_vector)
    requires
        cnt < 8,
        cnt + k <= 8,
        buf >> cnt == 0,
    ensures
        (buf << k) >> k == buf,
{
}

/// Appending bit `b` below the `cnt` bits of `buf`: the result holds `cnt + 1` bits,
/// its low bit is `b` and the bits above are `buf`.
pub proof fn lemma_u8_push_bit(buf: u8, b: u8, cnt: u8)
    by (bit_vector)
    requires
        cnt < 8,
        buf >> cnt == 0,
        b <= 1,
    ensures
        ((buf << 1u8) | (b & 1)) >> (cnt + 1) as u8 == 0,
        ((buf << 1u8) | (b & 1)) >> 1u8 == buf,
        ((buf << 1u8) | (b & 1)) & 1 == b,
{
}

/// Shifting right by `s + 1` is shifting by `s`, then by one.
pub proof fn lemma_u8_shr_step(x: u8, s: u8)
    by (bit_vector)
    requires
        s < 8,
    ensures
        x >> (s + 1) as u8 == (x >> s) >> 1u8,
        x >> 0u8 == x,
{
}

} // verus!
