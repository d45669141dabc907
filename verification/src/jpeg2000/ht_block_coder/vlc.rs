//! The unary code of the u-value pairs of the HTJ2K cleanup pass.
use vstd::arithmetic::power2::{lemma2_to64, lemma_pow2_adds, pow2};
use vstd::prelude::*;
use vstd::std_specs::bits::{axiom_u16_trailing_zeros, u16_trailing_zeros};

verus! {

/// A code word: its bits, least significant first, and their number.
#[derive(Debug, Clone, Copy, PartialEq, Eq, Structural)]
pub struct VlcCodeword {
    pub value: u32,
    pub bits: u8,
}

/// The code word of a u-value pair: `u_q0` (at most 31) as `u_q0` zeros and a one,
/// then `u_q1` (at most 31) likewise, least significant bit first, within 32 bits.
pub open spec fn uvlc_value(u0: nat, u1: nat) -> int {
    pow2(u0) + if u0 + 1 + u1 < 32 { pow2(u0 + 1 + u1) as int } else { 0int }
}

/// Codes the u-values of a quad pair: each value `u` (capped at 31) as `u` zero bits
/// and a one bit, the first value in the low bits. The context does not enter.
pub fn encode_uvlc(u_q0: u8, u_q1: u8, _context: u8) -> (r: VlcCodeword)
    requires
        u_q0 < 31,
    ensures
        ({
            let u1 = if u_q1 < 31 { u_q1 as nat } else { 31nat };
            &&& r.value as int == uvlc_value(u_q0 as nat, u1)
            &&& r.bits == u_q0 + u1 + 2
        }),
{
    let u0: u32 = u_q0 as u32;
    let u1: u32 = if u_q1 < 31 { u_q1 as u32 } else { 31 };
    let cw0 = 1u32 << u0;
    let len0 = u0 + 1;
    let cw1 = 1u32 << u1;
    let len1 = u1 + 1;
    let high = cw1 << len0;
    proof {
        crate::bits::lemma_one_shl_u32(u0);
        crate::bits::lemma_one_shl_u32(u1);
        crate::bits::lemma_uvlc_pack(u0, u1, len0);
        if u0 + 1 + u1 < 32 {
            lemma_pow2_adds(u1 as nat, len0 as nat);
            crate::bits::lemma_pow2_le((u1 + len0) as nat, 31);
            lemma2_to64();
            vstd::bits::lemma_u32_shl_is_mul(cw1, len0);
        }
    }
    VlcCodeword { value: cw0 | high, bits: (len0 + len1) as u8 }
}

/// Decodes a u-value pair from the low bits of `peek`: the trailing zeros give the
/// first value; past its one bit, the trailing zeros of the rest (none when 16 or more
/// bits were taken) give the second. Gives both values and the bits taken. The context
/// does not enter.
pub fn decode_uvlc(peek: u16, _context: u8) -> (r: (u8, u8, u8))
    ensures
        ({
            let z0 = u16_trailing_zeros(peek);
            let rest: u16 = if z0 + 1 < 16 { peek >> ((z0 + 1) as u16) } else { 0 };
            let z1 = u16_trailing_zeros(rest);
            &&& r.0 == z0
            &&& r.1 == z1
            &&& r.2 == z0 + z1 + 2
        }),
{
    let zeros0 = peek.trailing_zeros();
    proof {
        axiom_u16_trailing_zeros(peek);
    }
    let len0 = zeros0 + 1;
    let rest: u16 = if len0 < 16 { peek >> (len0 as u16) } else { 0 };
    let zeros1 = rest.trailing_zeros();
    proof {
        axiom_u16_trailing_zeros(rest);
    }
    let len1 = zeros1 + 1;
    (zeros0 as u8, zeros1 as u8, (len0 + len1) as u8)
}

/// Decoding the code word of a u-value pair that fits 16 bits gives the pair back.
pub proof fn lemma_uvlc_roundtrip(u0: nat, u1: nat)
    requires
        u0 + u1 + 2 <= 16,
    ensures
        ({
            let v = uvlc_value(u0, u1) as u16;
            let z0 = u16_trailing_zeros(v);
            let rest: u16 = if z0 + 1 < 16 { v >> ((z0 + 1) as u16) } else { 0 };
            &&& z0 == u0
            &&& u16_trailing_zeros(rest) == u1
        }),
{
    let a = u0 as u16;
    let c = (u0 + 1 + u1) as u16;
    let s = (u0 + 1) as u16;
    let b = u1 as u16;
    let v: u16 = (1u16 << a) | (1u16 << c);
    crate::bits::lemma_two_bits_u16(a, c, s, b, a);
    crate::bits::lemma_one_shl_u16(a);
    crate::bits::lemma_one_shl_u16(c);
    crate::bits::lemma_pow2_le(c as nat, 15);
    crate::bits::lemma_pow2_le(a as nat, 14);
    lemma2_to64();
    assert(uvlc_value(u0, u1) as u16 == v);
    axiom_u16_trailing_zeros(v);
    let z0 = u16_trailing_zeros(v);
    if z0 < 16 {
        crate::bits::lemma_two_bits_u16(a, c, s, b, z0 as u16);
    }
    if (a as u32) < z0 {
        assert((v >> a) & 1u16 == 0u16);
    }
    assert(z0 == u0);
    let rest: u16 = v >> s;
    axiom_u16_trailing_zeros(rest);
    let z1 = u16_trailing_zeros(rest);
    crate::bits::lemma_one_bit_u16(b, b);
    if z1 < 16 {
        crate::bits::lemma_one_bit_u16(b, z1 as u16);
    }
    if (b as u32) < z1 {
        assert((rest >> b) & 1u16 == 0u16);
    }
}

} // verus!
